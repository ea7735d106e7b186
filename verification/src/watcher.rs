//! File watcher: filters raw filesystem notifications against ignore
//! rules, debounces rapid-fire events per path, and decides which actions
//! (deletions, renames) bypass the debounce table.

use vstd::prelude::*;
use crate::text::{str_contains, seq_contains_sub, path_has_hidden_segment, has_hidden_segment};

verus! {

/// How long a path must stay quiet before its change is considered
/// stable, in milliseconds.
pub const DEBOUNCE_MILLIS: u64 = 300;

/// A path is ignored when it contains any configured pattern as a
/// substring, or when any of its segments is hidden (leading dot).
pub open spec fn spec_should_ignore(path: Seq<char>, patterns: Seq<String>) -> bool {
    (exists|k: int|
        0 <= k < patterns.len() && seq_contains_sub(path, (#[trigger] patterns[k])@))
        || has_hidden_segment(path)
}

/// The default directory denylist.
pub fn default_ignore_patterns() -> (r: Vec<String>)
    ensures
        r@.map_values(|s: String| s@) =~= spec_default_patterns(),
{
    let mut v: Vec<String> = Vec::new();
    v.push("node_modules".to_owned());
    v.push(".git".to_owned());
    v.push("target".to_owned());
    v.push("dist".to_owned());
    v.push("build".to_owned());
    v.push("__pycache__".to_owned());
    v.push(".next".to_owned());
    v.push(".nuxt".to_owned());
    v
}

/// Should this path be excluded from all processing?
pub fn should_ignore(path: &String, patterns: &Vec<String>) -> (r: bool)
    ensures
        r == spec_should_ignore(path@, patterns@),
{
    let n = patterns.len();
    let mut k: usize = 0;
    while k < n
        invariant
            n == patterns@.len(),
            k <= n,
            forall|j: int| 0 <= j < k ==> !seq_contains_sub(path@, (#[trigger] patterns@[j])@),
        decreases n - k,
    {
        if str_contains(path, &patterns[k]) {
            return true;
        }
        k = k + 1;
    }
    path_has_hidden_segment(path)
}

/// The mapping from path to last-seen time that the table's records denote.
pub open spec fn pending_map_of(entries: Seq<(String, u64)>) -> Map<Seq<char>, u64>
    decreases entries.len(),
{
    if entries.len() == 0 {
        Map::empty()
    } else {
        pending_map_of(entries.drop_last()).insert(entries.last().0@, entries.last().1)
    }
}

/// No two records concern the same path.
pub open spec fn pending_paths_unique(entries: Seq<(String, u64)>) -> bool {
    forall|i: int, j: int|
        0 <= i < j < entries.len() ==> (#[trigger] entries[i]).0@ != (#[trigger] entries[j]).0@
}

proof fn lemma_pending_domain(entries: Seq<(String, u64)>)
    ensures
        forall|p: Seq<char>|
            #[trigger] pending_map_of(entries).contains_key(p) <==> (exists|i: int|
                0 <= i < entries.len() && (#[trigger] entries[i]).0@ == p),
    decreases entries.len(),
{
    if entries.len() > 0 {
        lemma_pending_domain(entries.drop_last());
        assert forall|p: Seq<char>| #[trigger]
            pending_map_of(entries).contains_key(p) implies (exists|i: int|
            0 <= i < entries.len() && (#[trigger] entries[i]).0@ == p) by {
            if p == entries.last().0@ {
                assert(entries[entries.len() - 1].0@ == p);
            } else {
                assert(pending_map_of(entries.drop_last()).contains_key(p));
                let i = choose|i: int|
                    0 <= i < entries.drop_last().len() && (#[trigger] entries.drop_last()[i]).0@
                        == p;
                assert(entries[i].0@ == p);
            }
        }
        assert forall|p: Seq<char>|
            (exists|i: int|
                0 <= i < entries.len() && (#[trigger] entries[i]).0@
                    == p) implies #[trigger] pending_map_of(entries).contains_key(p) by {
            let i = choose|i: int| 0 <= i < entries.len() && (#[trigger] entries[i]).0@ == p;
            if i < entries.len() - 1 {
                assert(entries.drop_last()[i].0@ == p);
                assert(pending_map_of(entries.drop_last()).contains_key(p));
            }
        }
    }
}

proof fn lemma_pending_index(entries: Seq<(String, u64)>, i: int)
    requires
        pending_paths_unique(entries),
        0 <= i < entries.len(),
    ensures
        pending_map_of(entries).contains_key(entries[i].0@),
        pending_map_of(entries)[entries[i].0@] == entries[i].1,
    decreases entries.len(),
{
    lemma_pending_domain(entries);
    if i < entries.len() - 1 {
        assert(entries.last().0@ != entries[i].0@);
        assert(entries.drop_last()[i] == entries[i]);
        lemma_pending_index(entries.drop_last(), i);
    }
}

proof fn lemma_pending_update(entries: Seq<(String, u64)>, i: int, e: (String, u64))
    requires
        pending_paths_unique(entries),
        0 <= i < entries.len(),
        e.0@ == entries[i].0@,
    ensures
        pending_paths_unique(entries.update(i, e)),
        pending_map_of(entries.update(i, e)) =~= pending_map_of(entries).insert(e.0@, e.1),
    decreases entries.len(),
{
    let upd = entries.update(i, e);
    assert forall|a: int, b: int| 0 <= a < b < upd.len() implies (#[trigger] upd[a]).0@ != (
    #[trigger] upd[b]).0@ by {
        assert(entries[a].0@ != entries[b].0@);
    }
    if i == entries.len() - 1 {
        assert(upd.drop_last() =~= entries.drop_last());
        assert(upd.last() == e);
    } else {
        lemma_pending_update(entries.drop_last(), i, e);
        assert(upd.drop_last() =~= entries.drop_last().update(i, e));
        assert(upd.last() == entries.last());
        assert(entries.last().0@ != e.0@);
    }
}

proof fn lemma_pending_remove(entries: Seq<(String, u64)>, i: int)
    requires
        pending_paths_unique(entries),
        0 <= i < entries.len(),
    ensures
        pending_paths_unique(entries.remove(i)),
        pending_map_of(entries.remove(i)) =~= pending_map_of(entries).remove(entries[i].0@),
    decreases entries.len(),
{
    let rem = entries.remove(i);
    assert forall|a: int, b: int| 0 <= a < b < rem.len() implies (#[trigger] rem[a]).0@ != (
    #[trigger] rem[b]).0@ by {
        let a0 = if a < i { a } else { a + 1 };
        let b0 = if b < i { b } else { b + 1 };
        assert(rem[a] == entries[a0]);
        assert(rem[b] == entries[b0]);
        assert(entries[a0].0@ != entries[b0].0@);
    }
    if i == entries.len() - 1 {
        assert(rem =~= entries.drop_last());
        lemma_pending_domain(entries.drop_last());
        assert forall|j: int| 0 <= j < entries.len() - 1 implies (#[trigger] entries.drop_last()[j]).0@
            != entries[i].0@ by {
            assert(entries.drop_last()[j] == entries[j]);
        }
        assert(!pending_map_of(entries.drop_last()).contains_key(entries[i].0@));
    } else {
        lemma_pending_remove(entries.drop_last(), i);
        assert(rem.drop_last() =~= entries.drop_last().remove(i));
        assert(rem.last() == entries.last());
        assert(entries.last().0@ != entries[i].0@);
    }
}

/// A pending change is stable once a full debounce window has passed
/// since the path was last seen.
pub open spec fn spec_stable(last_seen: u64, now: u64, window: u64) -> bool {
    last_seen + window <= now
}

/// The table of paths seen recently, each with the time it was last seen.
pub struct PendingChanges {
    entries: Vec<(String, u64)>,
}

impl View for PendingChanges {
    type V = Map<Seq<char>, u64>;

    closed spec fn view(&self) -> Map<Seq<char>, u64> {
        pending_map_of(self.entries@)
    }
}

impl PendingChanges {
    /// The table never holds one path twice.
    pub closed spec fn wf(&self) -> bool {
        pending_paths_unique(self.entries@)
    }

    /// Creates an empty table.
    pub fn new() -> (r: PendingChanges)
        ensures
            r.wf(),
            r@ =~= Map::<Seq<char>, u64>::empty(),
    {
        PendingChanges { entries: Vec::new() }
    }

    /// Index of the record for `path`, if one exists.
    fn find_entry(&self, path: &String) -> (r: Option<usize>)
        ensures
            match r {
                Some(i) => i < self.entries@.len() && self.entries@[i as int].0@ == path@,
                None => forall|j: int|
                    0 <= j < self.entries@.len() ==> (#[trigger] self.entries@[j]).0@ != path@,
            },
    {
        let n = self.entries.len();
        let mut i: usize = 0;
        while i < n
            invariant
                n == self.entries@.len(),
                i <= n,
                forall|j: int| 0 <= j < i ==> (#[trigger] self.entries@[j]).0@ != path@,
            decreases n - i,
        {
            if self.entries[i].0 == *path {
                return Some(i);
            }
            i = i + 1;
        }
        None
    }

    /// Notes that `path` was seen changing at time `now`: the last-seen
    /// time is overwritten, so bursts collapse to one entry.
    pub fn record_change(&mut self, path: &String, now: u64)
        requires
            old(self).wf(),
        ensures
            final(self).wf(),
            final(self)@ =~= old(self)@.insert(path@, now),
    {
        proof {
            lemma_pending_domain(self.entries@);
        }
        let e = (path.clone(), now);
        match self.find_entry(path) {
            None => {
                proof {
                    let s = self.entries@;
                    assert(s.push(e).drop_last() =~= s);
                    assert forall|a: int, b: int|
                        0 <= a < b < s.push(e).len() implies (#[trigger] s.push(e)[a]).0@ != (
                    #[trigger] s.push(e)[b]).0@ by {
                        if b < s.len() {
                            assert(s[a].0@ != s[b].0@);
                        } else {
                            assert(s.push(e)[b] == e);
                            assert(s[a].0@ != path@);
                        }
                    }
                }
                self.entries.push(e);
            },
            Some(i) => {
                proof {
                    lemma_pending_update(self.entries@, i as int, e);
                }
                self.entries.set(i, e);
            },
        }
    }

    /// Removes and returns every path that has been quiet for a full
    /// window: each stabilized path is reported exactly once, and the
    /// paths still inside the window stay pending with their times.
    pub fn take_stable(&mut self, now: u64, window: u64) -> (stable: Vec<String>)
        requires
            old(self).wf(),
        ensures
            final(self).wf(),
            forall|p: Seq<char>|
                #[trigger] final(self)@.contains_key(p) <==> (old(self)@.contains_key(p)
                    && !spec_stable(old(self)@[p], now, window)),
            forall|p: Seq<char>|
                #[trigger] final(self)@.contains_key(p) ==> final(self)@[p] == old(self)@[p],
            forall|i: int|
                0 <= i < stable@.len() ==> old(self)@.contains_key((#[trigger] stable@[i])@)
                    && spec_stable(old(self)@[stable@[i]@], now, window),
            forall|p: Seq<char>|
                (old(self)@.contains_key(p) && spec_stable(old(self)@[p], now, window))
                    ==> exists|i: int| 0 <= i < stable@.len() && (#[trigger] stable@[i])@ == p,
            forall|i: int, j: int| 0 <= i < j < stable@.len() ==> (#[trigger] stable@[i])@ != (
            #[trigger] stable@[j])@,
    {
        let mut stable: Vec<String> = Vec::new();
        let mut i: usize = 0;
        while i < self.entries.len()
            invariant
                self.wf(),
                i <= self.entries@.len(),
                forall|j: int|
                    0 <= j < i ==> !spec_stable((#[trigger] self.entries@[j]).1, now, window),
                forall|p: Seq<char>|
                    #[trigger] self@.contains_key(p) ==> old(self)@.contains_key(p) && self@[p]
                        == old(self)@[p],
                forall|p: Seq<char>| #[trigger]
                    old(self)@.contains_key(p) ==> self@.contains_key(p) || exists|k: int|
                        0 <= k < stable@.len() && (#[trigger] stable@[k])@ == p,
                forall|k: int|
                    0 <= k < stable@.len() ==> old(self)@.contains_key((#[trigger] stable@[k])@)
                        && spec_stable(old(self)@[stable@[k]@], now, window) && !self@.contains_key(
                        stable@[k]@,
                    ),
                forall|k: int, l: int| 0 <= k < l < stable@.len() ==> (#[trigger] stable@[k])@ != (
                #[trigger] stable@[l])@,
            decreases self.entries@.len() - i,
        {
            proof {
                lemma_pending_index(self.entries@, i as int);
            }
            let ghost pre_entries = self.entries@;
            let ghost pre_map = self@;
            let ghost pre_stable = stable@;
            let last_seen = self.entries[i].1;
            if now >= window && last_seen <= now - window {
                proof {
                    lemma_pending_remove(self.entries@, i as int);
                }
                let (p, _) = self.entries.remove(i);
                stable.push(p);
                proof {
                    let p0 = pre_entries[i as int].0@;
                    assert(self@ =~= pre_map.remove(p0));
                    assert(stable@ =~= pre_stable.push(stable@[stable@.len() - 1]));
                    assert(stable@[stable@.len() - 1]@ == p0);
                    assert forall|q: Seq<char>| #[trigger]
                        old(self)@.contains_key(q) implies self@.contains_key(q) || exists|k: int|
                        0 <= k < stable@.len() && (#[trigger] stable@[k])@ == q by {
                        if q == p0 {
                            assert(stable@[stable@.len() - 1]@ == q);
                        } else if !pre_map.contains_key(q) {
                            let k = choose|k: int|
                                0 <= k < pre_stable.len() && (#[trigger] pre_stable[k])@ == q;
                            assert(stable@[k]@ == q);
                        }
                    }
                    assert forall|k: int|
                        0 <= k < stable@.len() implies old(self)@.contains_key((
                    #[trigger] stable@[k])@) && spec_stable(old(self)@[stable@[k]@], now, window)
                        && !self@.contains_key(stable@[k]@) by {
                        if k < pre_stable.len() {
                            assert(stable@[k] == pre_stable[k]);
                        } else {
                            assert(stable@[k]@ == p0);
                            assert(pre_map.contains_key(p0) && pre_map[p0] == last_seen);
                        }
                    }
                    assert forall|k: int, l: int|
                        0 <= k < l < stable@.len() implies (#[trigger] stable@[k])@ != (
                    #[trigger] stable@[l])@ by {
                        if l == stable@.len() - 1 {
                            assert(stable@[k] == pre_stable[k]);
                            assert(!pre_map.contains_key(pre_stable[k]@));
                            assert(stable@[l]@ == p0 && pre_map.contains_key(p0));
                        }
                    }
                }
            } else {
                i = i + 1;
            }
        }
        proof {
            lemma_pending_domain(self.entries@);
            assert forall|p: Seq<char>| #[trigger]
                self@.contains_key(p) implies (old(self)@.contains_key(p) && !spec_stable(
                old(self)@[p],
                now,
                window,
            )) by {
                let j = choose|j: int|
                    0 <= j < self.entries@.len() && (#[trigger] self.entries@[j]).0@ == p;
                lemma_pending_index(self.entries@, j);
            }
        }
        stable
    }
}

/// Repeated sightings of one path coalesce: recording a burst of times
/// for the same path leaves the table exactly as one record of the last
/// sighting would, so one sweep can report the path at most once.
pub open spec fn spec_record_burst(m: Map<Seq<char>, u64>, p: Seq<char>, times: Seq<u64>) -> Map<
    Seq<char>,
    u64,
>
    decreases times.len(),
{
    if times.len() == 0 {
        m
    } else {
        spec_record_burst(m.insert(p, times[0]), p, times.drop_first())
    }
}

/// Debounce coalescing: N raw events for one path within the window are
/// one pending entry, carrying the last sighting's time.
pub proof fn lemma_debounce_coalesces(m: Map<Seq<char>, u64>, p: Seq<char>, times: Seq<u64>)
    requires
        times.len() > 0,
    ensures
        spec_record_burst(m, p, times) =~= m.insert(p, times.last()),
    decreases times.len(),
{
    if times.len() == 1 {
        assert(times.drop_first().len() == 0);
        assert(spec_record_burst(m.insert(p, times[0]), p, times.drop_first()) == m.insert(
            p,
            times[0],
        ));
        assert(times[0] == times.last());
    } else {
        lemma_debounce_coalesces(m.insert(p, times[0]), p, times.drop_first());
        assert(times.drop_first().last() == times.last());
        assert(m.insert(p, times[0]).insert(p, times.last()) =~= m.insert(p, times.last()));
    }
}

/// A raw filesystem notification kind, as the OS reports it.
#[derive(Clone, Copy, Debug, PartialEq, Eq, Structural)]
pub enum FsEventKind {
    Create,
    Modify,
    ModifyName,
    Remove,
    Other,
}

/// A raw filesystem notification: a kind and the paths it concerns.
/// A rename arrives as `ModifyName` with the old path first and the new
/// path second.
#[derive(Debug)]
pub struct FsEvent {
    pub kind: FsEventKind,
    pub paths: Vec<String>,
}

/// An action the caller must carry out at once, bypassing the debounce
/// table: delete a path from tracker and graph, or rename it in both.
#[derive(Debug)]
pub enum WatchAction {
    RemoveFile(String),
    RenameFile(String, String),
}

/// The mathematical shape of a watch action.
pub enum WatchActionView {
    RemoveFileV(Seq<char>),
    RenameFileV(Seq<char>, Seq<char>),
}

impl View for WatchAction {
    type V = WatchActionView;

    open spec fn view(&self) -> WatchActionView {
        match self {
            WatchAction::RemoveFile(p) => WatchActionView::RemoveFileV(p@),
            WatchAction::RenameFile(a, b) => WatchActionView::RenameFileV(a@, b@),
        }
    }
}

/// The paths of an event that survive ignore filtering, in order.
pub open spec fn spec_surviving(paths: Seq<String>, patterns: Seq<String>) -> Seq<Seq<char>>
    decreases paths.len(),
{
    if paths.len() == 0 {
        Seq::empty()
    } else if spec_should_ignore(paths[0]@, patterns) {
        spec_surviving(paths.drop_first(), patterns)
    } else {
        seq![paths[0]@] + spec_surviving(paths.drop_first(), patterns)
    }
}

/// The pending table after noting each given path at time `now`.
pub open spec fn spec_record_paths(
    m: Map<Seq<char>, u64>,
    survivors: Seq<Seq<char>>,
    now: u64,
) -> Map<Seq<char>, u64>
    decreases survivors.len(),
{
    if survivors.len() == 0 {
        m
    } else {
        spec_record_paths(m.insert(survivors[0], now), survivors.drop_first(), now)
    }
}

/// The default pattern list, as character sequences.
pub open spec fn spec_default_patterns() -> Seq<Seq<char>> {
    seq![
        "node_modules"@,
        ".git"@,
        "target"@,
        "dist"@,
        "build"@,
        "__pycache__"@,
        ".next"@,
        ".nuxt"@,
    ]
}

/// An ignored path never survives filtering, so no event for it touches
/// the pending table: whatever an event's paths are, the table holds the
/// ignored path afterwards exactly when it held it before.
pub proof fn lemma_ignored_paths_inert(
    paths: Seq<String>,
    patterns: Seq<String>,
    q: Seq<char>,
    m: Map<Seq<char>, u64>,
    now: u64,
)
    requires
        spec_should_ignore(q, patterns),
    ensures
        !spec_surviving(paths, patterns).contains(q),
        spec_record_paths(m, spec_surviving(paths, patterns), now).contains_key(q)
            == m.contains_key(q),
    decreases paths.len(),
{
    lemma_surviving_not_ignored(paths, patterns, q);
    lemma_record_paths_untouched(m, spec_surviving(paths, patterns), q, now);
}

proof fn lemma_surviving_not_ignored(paths: Seq<String>, patterns: Seq<String>, q: Seq<char>)
    requires
        spec_should_ignore(q, patterns),
    ensures
        !spec_surviving(paths, patterns).contains(q),
    decreases paths.len(),
{
    if paths.len() > 0 {
        lemma_surviving_not_ignored(paths.drop_first(), patterns, q);
        if !spec_should_ignore(paths[0]@, patterns) {
            let s = spec_surviving(paths, patterns);
            let rest = spec_surviving(paths.drop_first(), patterns);
            assert forall|i: int| 0 <= i < s.len() implies s[i] != q by {
                if i > 0 {
                    assert(s[i] == rest[i - 1]);
                    assert(!rest.contains(q));
                }
            }
        }
    }
}

proof fn lemma_record_paths_untouched(
    m: Map<Seq<char>, u64>,
    survivors: Seq<Seq<char>>,
    q: Seq<char>,
    now: u64,
)
    requires
        !survivors.contains(q),
    ensures
        spec_record_paths(m, survivors, now).contains_key(q) == m.contains_key(q),
    decreases survivors.len(),
{
    if survivors.len() > 0 {
        assert(survivors[0] != q);
        assert forall|i: int| 0 <= i < survivors.drop_first().len() implies survivors.drop_first()[i]
            != q by {
            assert(survivors.drop_first()[i] == survivors[i + 1]);
        }
        lemma_record_paths_untouched(m.insert(survivors[0], now), survivors.drop_first(), q, now);
    }
}

/// Watches one repository root: holds the ignore rules and the pending
/// debounce table, and decides what each raw event means. Subscribing to
/// the OS and sweeping on a timer are the caller's side.
pub struct FileWatcherSystem {
    repository_path: String,
    ignore_patterns: Vec<String>,
    pending: PendingChanges,
    watching: bool,
}

impl FileWatcherSystem {
    /// The debounce table never holds one path twice.
    pub closed spec fn wf(&self) -> bool {
        self.pending.wf()
    }

    /// The pending table, as a map from path to last-seen time.
    pub closed spec fn pending(&self) -> Map<Seq<char>, u64> {
        self.pending@
    }

    /// The configured ignore patterns.
    pub closed spec fn patterns(&self) -> Seq<String> {
        self.ignore_patterns@
    }

    /// The watched root.
    pub closed spec fn spec_repository_path(&self) -> Seq<char> {
        self.repository_path@
    }

    /// Is the watcher started?
    pub closed spec fn is_watching(&self) -> bool {
        self.watching
    }

    /// Creates an idle watcher for a root, with the default ignore rules.
    pub fn new(repository_path: String) -> (r: FileWatcherSystem)
        ensures
            r.wf(),
            !r.is_watching(),
            r.pending() =~= Map::<Seq<char>, u64>::empty(),
            r.patterns().map_values(|s: String| s@) =~= spec_default_patterns(),
            r.spec_repository_path() == repository_path@,
    {
        let patterns = default_ignore_patterns();
        assert(patterns@.map_values(|s: String| s@) =~= spec_default_patterns());
        FileWatcherSystem {
            repository_path,
            ignore_patterns: patterns,
            pending: PendingChanges::new(),
            watching: false,
        }
    }

    /// Starts watching. The OS subscription is the caller's to make; this
    /// records that sweeps may now run.
    pub fn start(&mut self)
        requires
            old(self).wf(),
        ensures
            final(self).wf(),
            final(self).is_watching(),
            final(self).pending() == old(self).pending(),
            final(self).patterns() == old(self).patterns(),
            final(self).spec_repository_path() == old(self).spec_repository_path(),
    {
        self.watching = true;
    }

    /// Stops watching. Idempotent: stopping an idle watcher is a no-op.
    pub fn stop(&mut self)
        requires
            old(self).wf(),
        ensures
            final(self).wf(),
            !final(self).is_watching(),
            final(self).pending() == old(self).pending(),
            final(self).patterns() == old(self).patterns(),
            final(self).spec_repository_path() == old(self).spec_repository_path(),
    {
        self.watching = false;
    }

    /// Decides what one raw event means. Creations and modifications of
    /// surviving paths are noted in the pending table for debouncing;
    /// removals and whole rename pairs bypass the table and come back as
    /// actions to carry out at once; everything else is inert.
    pub fn handle_event(&mut self, event: &FsEvent, now: u64) -> (actions: Vec<WatchAction>)
        requires
            old(self).wf(),
        ensures
            final(self).wf(),
            final(self).patterns() == old(self).patterns(),
            final(self).spec_repository_path() == old(self).spec_repository_path(),
            final(self).is_watching() == old(self).is_watching(),
            match event.kind {
                FsEventKind::Create | FsEventKind::Modify => actions@.len() == 0
                    && final(self).pending() =~= spec_record_paths(
                    old(self).pending(),
                    spec_surviving(event.paths@, old(self).patterns()),
                    now,
                ),
                FsEventKind::ModifyName => if event.paths@.len() >= 2 {
                    final(self).pending() == old(self).pending() && (if !spec_should_ignore(
                        event.paths@[1]@,
                        old(self).patterns(),
                    ) {
                        actions@.map_values(|a: WatchAction| a@) =~= seq![
                            WatchActionView::RenameFileV(event.paths@[0]@, event.paths@[1]@),
                        ]
                    } else {
                        actions@.len() == 0
                    })
                } else {
                    actions@.len() == 0 && final(self).pending() =~= spec_record_paths(
                        old(self).pending(),
                        spec_surviving(event.paths@, old(self).patterns()),
                        now,
                    )
                },
                FsEventKind::Remove => final(self).pending() == old(self).pending()
                    && actions@.map_values(|a: WatchAction| a@) =~= spec_surviving(
                    event.paths@,
                    old(self).patterns(),
                ).map_values(|p: Seq<char>| WatchActionView::RemoveFileV(p)),
                FsEventKind::Other => actions@.len() == 0
                    && final(self).pending() == old(self).pending(),
            },
    {
        let mut actions: Vec<WatchAction> = Vec::new();
        match event.kind {
            FsEventKind::Create | FsEventKind::Modify => {
                self.record_surviving(&event.paths, now);
            },
            FsEventKind::ModifyName => {
                if event.paths.len() >= 2 {
                    let to_ignored = should_ignore(&event.paths[1], &self.ignore_patterns);
                    if !to_ignored {
                        actions.push(
                            WatchAction::RenameFile(
                                event.paths[0].clone(),
                                event.paths[1].clone(),
                            ),
                        );
                        assert(actions@.map_values(|a: WatchAction| a@) =~= seq![
                            WatchActionView::RenameFileV(event.paths@[0]@, event.paths@[1]@),
                        ]);
                    }
                } else {
                    self.record_surviving(&event.paths, now);
                }
            },
            FsEventKind::Remove => {
                let n = event.paths.len();
                let mut i: usize = 0;
                proof {
                    assert(event.paths@.skip(0) =~= event.paths@);
                }
                while i < n
                    invariant
                        n == event.paths@.len(),
                        i <= n,
                        spec_surviving(event.paths@, self.patterns()) =~= actions@.map_values(
                            |a: WatchAction| a@,
                        ).map_values(
                            |v: WatchActionView| v->RemoveFileV_0,
                        ) + spec_surviving(event.paths@.skip(i as int), self.patterns()),
                        forall|k: int|
                            0 <= k < actions@.len() ==> (#[trigger] actions@[k])@ is RemoveFileV,
                    decreases n - i,
                {
                    proof {
                        assert(event.paths@.skip(i as int)[0] == event.paths@[i as int]);
                        assert(event.paths@.skip(i as int).drop_first() =~= event.paths@.skip(
                            i + 1,
                        ));
                    }
                    let ghost prev = actions@;
                    if !should_ignore(&event.paths[i], &self.ignore_patterns) {
                        actions.push(WatchAction::RemoveFile(event.paths[i].clone()));
                        proof {
                            assert(actions@ =~= prev.push(actions@[actions@.len() - 1]));
                        }
                    }
                    i = i + 1;
                }
                proof {
                    assert(spec_surviving(event.paths@.skip(n as int), self.patterns()).len()
                        == 0);
                    assert(spec_surviving(event.paths@, self.patterns()) =~= actions@.map_values(
                        |a: WatchAction| a@,
                    ).map_values(|v: WatchActionView| v->RemoveFileV_0));
                    assert(actions@.map_values(|a: WatchAction| a@) =~= spec_surviving(
                        event.paths@,
                        self.patterns(),
                    ).map_values(|p: Seq<char>| WatchActionView::RemoveFileV(p)));
                }
            },
            FsEventKind::Other => {},
        }
        actions
    }

    /// Notes every surviving path of an event in the pending table.
    fn record_surviving(&mut self, paths: &Vec<String>, now: u64)
        requires
            old(self).wf(),
        ensures
            final(self).wf(),
            final(self).patterns() == old(self).patterns(),
            final(self).spec_repository_path() == old(self).spec_repository_path(),
            final(self).is_watching() == old(self).is_watching(),
            final(self).pending() =~= spec_record_paths(
                old(self).pending(),
                spec_surviving(paths@, old(self).patterns()),
                now,
            ),
    {
        let n = paths.len();
        let mut i: usize = 0;
        proof {
            assert(paths@.skip(0) =~= paths@);
        }
        while i < n
            invariant
                self.wf(),
                n == paths@.len(),
                i <= n,
                self.patterns() == old(self).patterns(),
                self.spec_repository_path() == old(self).spec_repository_path(),
                self.is_watching() == old(self).is_watching(),
                spec_record_paths(
                    old(self).pending(),
                    spec_surviving(paths@, old(self).patterns()),
                    now,
                ) == spec_record_paths(
                    self.pending(),
                    spec_surviving(paths@.skip(i as int), old(self).patterns()),
                    now,
                ),
            decreases n - i,
        {
            proof {
                assert(paths@.skip(i as int)[0] == paths@[i as int]);
                assert(paths@.skip(i as int).drop_first() =~= paths@.skip(i + 1));
            }
            if !should_ignore(&paths[i], &self.ignore_patterns) {
                let ghost pre = self.pending();
                self.pending.record_change(&paths[i], now);
                proof {
                    let survivors = spec_surviving(paths@.skip(i as int), old(self).patterns());
                    assert(survivors[0] == paths@[i as int]@);
                    assert(survivors.drop_first() =~= spec_surviving(
                        paths@.skip(i + 1),
                        old(self).patterns(),
                    ));
                    assert(self.pending() =~= pre.insert(paths@[i as int]@, now));
                }
            }
            i = i + 1;
        }
        proof {
            assert(spec_surviving(paths@.skip(n as int), old(self).patterns()).len() == 0);
        }
    }

    /// Removes and returns the stabilized paths: those whose last sighting
    /// is at least one debounce window old. Each comes back exactly once.
    pub fn take_stabilized(&mut self, now: u64) -> (stable: Vec<String>)
        requires
            old(self).wf(),
        ensures
            final(self).wf(),
            final(self).patterns() == old(self).patterns(),
            final(self).spec_repository_path() == old(self).spec_repository_path(),
            final(self).is_watching() == old(self).is_watching(),
            forall|p: Seq<char>|
                #[trigger] final(self).pending().contains_key(p) <==> (old(self).pending().contains_key(p) && !spec_stable(
                    old(self).pending()[p],
                    now,
                    DEBOUNCE_MILLIS,
                )),
            forall|i: int|
                0 <= i < stable@.len() ==> old(self).pending().contains_key((
                #[trigger] stable@[i])@) && spec_stable(
                    old(self).pending()[stable@[i]@],
                    now,
                    DEBOUNCE_MILLIS,
                ),
            forall|p: Seq<char>|
                (old(self).pending().contains_key(p) && spec_stable(
                    old(self).pending()[p],
                    now,
                    DEBOUNCE_MILLIS,
                )) ==> exists|i: int| 0 <= i < stable@.len() && (#[trigger] stable@[i])@ == p,
            forall|i: int, j: int| 0 <= i < j < stable@.len() ==> (#[trigger] stable@[i])@ != (
            #[trigger] stable@[j])@,
    {
        self.pending.take_stable(now, DEBOUNCE_MILLIS)
    }
}

} // verus!
