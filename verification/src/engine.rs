//! Incremental search decisions: which files to search again and which
//! cached results to reuse, given the detected changes.
use vstd::prelude::*;

use crate::cache::{ChangeStatus, FileCacheEntry, FileChangeInfo, FileSignature};
use crate::config::EncodingMode;
use crate::errors::SearchError;
use crate::paths::{components, same_path, same_path_spec};
use crate::processor::match_view;
use crate::results::{consistent, total_of, with_matches, FileResult, Match, SearchResult};
use crate::text::copy_string;

verus! {

/// The cached entries of an incremental search, keyed by path; paths are
/// compared by their components.
#[derive(Debug)]
pub struct CacheTable {
    entries: Vec<(String, FileCacheEntry)>,
}

/// The entries of a table as (path, entry) pairs.
pub open spec fn table_view(v: Seq<(String, FileCacheEntry)>) -> Seq<(Seq<char>, FileCacheEntry)> {
    v.map_values(|e: (String, FileCacheEntry)| (e.0@, e.1))
}

/// The first entry at or after `from` whose path is `key`.
pub open spec fn find_from(t: Seq<(Seq<char>, FileCacheEntry)>, key: Seq<char>, from: int) -> Option<int>
    decreases t.len() - from,
{
    if from < 0 || from >= t.len() {
        None
    } else if same_path_spec(t[from].0, key) {
        Some(from)
    } else {
        find_from(t, key, from + 1)
    }
}

/// What `find_from` returns lies in range and names an entry for `key`;
/// `None` means no entry from `from` on has that path.
pub proof fn lemma_find_from(t: Seq<(Seq<char>, FileCacheEntry)>, key: Seq<char>, from: int)
    requires
        0 <= from,
    ensures
        match find_from(t, key, from) {
            Some(i) => from <= i < t.len() && same_path_spec(t[i].0, key) && forall|j: int|
                from <= j < i ==> !same_path_spec(#[trigger] t[j].0, key),
            None => forall|j: int| from <= j < t.len() ==> !same_path_spec(#[trigger] t[j].0, key),
        },
    decreases t.len() - from,
{
    if from < t.len() && !same_path_spec(t[from].0, key) {
        lemma_find_from(t, key, from + 1);
    }
}

/// The entry whose path is `key`.
pub open spec fn find_key(t: Seq<(Seq<char>, FileCacheEntry)>, key: Seq<char>) -> Option<int> {
    find_from(t, key, 0)
}

/// The table without the entry for `key`.
pub open spec fn remove_key(t: Seq<(Seq<char>, FileCacheEntry)>, key: Seq<char>) -> Seq<(Seq<char>, FileCacheEntry)> {
    match find_key(t, key) {
        Some(i) => t.remove(i),
        None => t,
    }
}

/// The table with `e` stored for `key`: an existing entry for the key gets
/// the new value (its path is kept), otherwise the pair is added.
pub open spec fn insert_key(t: Seq<(Seq<char>, FileCacheEntry)>, key: Seq<char>, e: FileCacheEntry) -> Seq<(Seq<char>, FileCacheEntry)> {
    match find_key(t, key) {
        Some(i) => t.update(i, (t[i].0, e)),
        None => t.push((key, e)),
    }
}

/// No two entries of the table have the same path.
pub open spec fn keys_unique(t: Seq<(Seq<char>, FileCacheEntry)>) -> bool {
    forall|i: int, j: int| 0 <= i < j < t.len() ==> !same_path_spec(#[trigger] t[i].0, #[trigger] t[j].0)
}

/// What is stored for a path is what is found for it: after storing `e`
/// for `key`, looking `key` up finds `e`.
pub proof fn lemma_insert_then_find(t: Seq<(Seq<char>, FileCacheEntry)>, key: Seq<char>, e: FileCacheEntry)
    ensures
        find_key(insert_key(t, key, e), key) matches Some(i) && insert_key(t, key, e)[i].1 == e,
{
    let u = insert_key(t, key, e);
    lemma_find_from(t, key, 0);
    lemma_find_from(u, key, 0);
    match find_key(t, key) {
        Some(i) => {
            assert(u[i].0 == t[i].0);
            assert(same_path_spec(u[i].0, key));
            if let Some(j) = find_key(u, key) {
                if j < i {
                    assert(u[j] == t[j]);
                }
            }
        },
        None => {
            assert(same_path_spec(key, key));
            assert(same_path_spec(u[t.len() as int].0, key));
            if let Some(j) = find_key(u, key) {
                if j < t.len() {
                    assert(u[j] == t[j]);
                }
            }
        },
    }
}

/// Storing keeps the paths of a table distinct.
pub proof fn lemma_insert_keeps_unique(t: Seq<(Seq<char>, FileCacheEntry)>, key: Seq<char>, e: FileCacheEntry)
    requires
        keys_unique(t),
    ensures
        keys_unique(insert_key(t, key, e)),
{
    let u = insert_key(t, key, e);
    lemma_find_from(t, key, 0);
    assert forall|i: int, j: int| 0 <= i < j < u.len() implies !same_path_spec(#[trigger] u[i].0, #[trigger] u[j].0) by {
        if j < t.len() {
            assert(u[i].0 == t[i].0 && u[j].0 == t[j].0);
        } else {
            assert(u[i].0 == t[i].0);
            assert(u[j].0 == key);
            if same_path_spec(t[i].0, key) {
                assert(find_key(t, key) is Some);
            }
        }
    }
}

/// A path removed from a table with distinct paths is no longer found.
pub proof fn lemma_remove_then_find(t: Seq<(Seq<char>, FileCacheEntry)>, key: Seq<char>)
    requires
        keys_unique(t),
    ensures
        find_key(remove_key(t, key), key) is None,
{
    let u = remove_key(t, key);
    lemma_find_from(t, key, 0);
    lemma_find_from(u, key, 0);
    if let Some(i) = find_key(t, key) {
        if let Some(j) = find_key(u, key) {
            if j < i {
                assert(u[j] == t[j]);
            } else {
                assert(u[j] == t[j + 1]);
                assert(same_path_spec(t[i].0, key));
                assert(same_path_spec(t[j + 1].0, key));
                assert(components(t[i].0) == components(t[j + 1].0));
                assert(same_path_spec(t[i].0, t[j + 1].0));
            }
        }
    }
}

/// An entry after it was used at `now`.
pub open spec fn accessed(e: FileCacheEntry, now: u64) -> FileCacheEntry {
    FileCacheEntry { last_accessed: now, access_count: (e.access_count + 1) as u64, ..e }
}

/// The state of the decisions: the table, the files to search, the
/// reused results (path and cached matches) and the number of hits.
pub struct IncrementalState {
    pub table: Seq<(Seq<char>, FileCacheEntry)>,
    pub to_search: Seq<Seq<char>>,
    pub reused: Seq<(Seq<char>, Seq<Match>)>,
    pub hits: nat,
}

/// The first change reported for `file`.
pub open spec fn change_from(changes: Seq<FileChangeInfo>, file: Seq<char>, from: int) -> Option<int>
    decreases changes.len() - from,
{
    if from < 0 || from >= changes.len() {
        None
    } else if same_path_spec(changes[from].path@, file) {
        Some(from)
    } else {
        change_from(changes, file, from + 1)
    }
}

/// What `change_from` returns lies in range and names a change of `file`.
pub proof fn lemma_change_from(changes: Seq<FileChangeInfo>, file: Seq<char>, from: int)
    requires
        0 <= from,
    ensures
        match change_from(changes, file, from) {
            Some(i) => from <= i < changes.len() && same_path_spec(changes[i].path@, file),
            None => true,
        },
    decreases changes.len() - from,
{
    if from < changes.len() && !same_path_spec(changes[from].path@, file) {
        lemma_change_from(changes, file, from + 1);
    }
}

/// Reusing the cached results of `file` when there are some, searching it
/// otherwise.
pub open spec fn reuse_or_search(s: IncrementalState, file: Seq<char>, now: u64) -> IncrementalState {
    match find_key(s.table, file) {
        Some(i) => match s.table[i].1.search_results {
            Some(m) => IncrementalState {
                table: s.table.update(i, (s.table[i].0, accessed(s.table[i].1, now))),
                reused: s.reused.push((file, m@)),
                hits: s.hits + 1,
                ..s
            },
            None => IncrementalState { to_search: s.to_search.push(file), ..s },
        },
        None => IncrementalState { to_search: s.to_search.push(file), ..s },
    }
}

/// The decision for one file given its change: added and modified files
/// are searched; a renamed file takes over the entry of its old path (a
/// hit) or is searched; a deleted file loses its entry; other files reuse
/// their cached results or are searched.
pub open spec fn decide_file(s: IncrementalState, file: Seq<char>, change: Option<ChangeStatus>, now: u64) -> IncrementalState {
    match change {
        Some(ChangeStatus::Added) | Some(ChangeStatus::Modified) => IncrementalState {
            to_search: s.to_search.push(file),
            ..s
        },
        Some(ChangeStatus::Renamed(old)) => match find_key(s.table, old@) {
            Some(i) => IncrementalState {
                table: insert_key(s.table.remove(i), file, s.table[i].1),
                hits: s.hits + 1,
                ..s
            },
            None => IncrementalState { to_search: s.to_search.push(file), ..s },
        },
        Some(ChangeStatus::Deleted) => IncrementalState { table: remove_key(s.table, file), ..s },
        _ => reuse_or_search(s, file, now),
    }
}

/// The decisions for `files` in order.
pub open spec fn decide_all(
    s: IncrementalState,
    files: Seq<Seq<char>>,
    changes: Seq<FileChangeInfo>,
    now: u64,
) -> IncrementalState
    decreases files.len(),
{
    if files.len() == 0 {
        s
    } else {
        let prev = decide_all(s, files.drop_last(), changes, now);
        let f = files.last();
        let ch = match change_from(changes, f, 0) {
            Some(k) => Some(changes[k].status),
            None => None,
        };
        decide_file(prev, f, ch, now)
    }
}

/// The first change reported for `file` says it was added or modified.
pub open spec fn reported_changed(changes: Seq<FileChangeInfo>, file: Seq<char>) -> bool {
    match change_from(changes, file, 0) {
        Some(k) => changes[k].status is Added || changes[k].status is Modified,
        None => false,
    }
}

/// Cached results are never served for a changed file: every file reported
/// added or modified is searched again, and no reused result is for it.
pub proof fn lemma_changed_files_searched(
    s: IncrementalState,
    files: Seq<Seq<char>>,
    changes: Seq<FileChangeInfo>,
    now: u64,
)
    requires
        s.reused.len() == 0,
    ensures
        forall|i: int|
            0 <= i < files.len() && reported_changed(changes, #[trigger] files[i]) ==> {
                let r = decide_all(s, files, changes, now);
                &&& r.to_search.contains(files[i])
                &&& forall|j: int| 0 <= j < r.reused.len() ==> (#[trigger] r.reused[j]).0 != files[i]
            },
    decreases files.len(),
{
    if files.len() > 0 {
        let d = files.drop_last();
        lemma_changed_files_searched(s, d, changes, now);
        let prev = decide_all(s, d, changes, now);
        let f = files.last();
        let r = decide_all(s, files, changes, now);
        let ch = match change_from(changes, f, 0) {
            Some(k) => Some(changes[k].status),
            None => None,
        };
        assert(r == decide_file(prev, f, ch, now));
        assert(prev.to_search.is_prefix_of(r.to_search));
        assert(prev.reused.is_prefix_of(r.reused));
        assert(r.reused.len() <= prev.reused.len() + 1);
        assert(r.reused.len() == prev.reused.len() + 1 ==> r.reused.last().0 == f && !reported_changed(
            changes,
            f,
        ));
        assert forall|i: int|
            0 <= i < files.len() && reported_changed(changes, #[trigger] files[i]) implies {
                &&& r.to_search.contains(files[i])
                &&& forall|j: int| 0 <= j < r.reused.len() ==> (#[trigger] r.reused[j]).0 != files[i]
            } by {
            if i < files.len() - 1 {
                assert(files[i] == d[i]);
                assert(prev.to_search.contains(files[i]));
                let k = choose|k: int| 0 <= k < prev.to_search.len() && prev.to_search[k] == files[i];
                assert(r.to_search[k] == prev.to_search[k]);
            } else {
                assert(r.to_search.last() == f);
                assert(r.to_search.contains(f));
            }
            assert forall|j: int| 0 <= j < r.reused.len() implies (#[trigger] r.reused[j]).0 != files[i] by {
                if j < prev.reused.len() {
                    assert(r.reused[j] == prev.reused[j]);
                    if i == files.len() - 1 && r.reused[j].0 == f {
                        assert(false) by {
                            lemma_reused_unchanged(s, d, changes, now, j);
                        }
                    }
                }
            }
        }
    }
}

/// Every reused result is for a file that was not reported changed.
proof fn lemma_reused_unchanged(
    s: IncrementalState,
    files: Seq<Seq<char>>,
    changes: Seq<FileChangeInfo>,
    now: u64,
    j: int,
)
    requires
        s.reused.len() == 0,
        0 <= j < decide_all(s, files, changes, now).reused.len(),
    ensures
        !reported_changed(changes, decide_all(s, files, changes, now).reused[j].0),
    decreases files.len(),
{
    if files.len() > 0 {
        let d = files.drop_last();
        let prev = decide_all(s, d, changes, now);
        let r = decide_all(s, files, changes, now);
        let f = files.last();
        let ch = match change_from(changes, f, 0) {
            Some(k) => Some(changes[k].status),
            None => None,
        };
        assert(r == decide_file(prev, f, ch, now));
        if j < prev.reused.len() {
            assert(prev.reused.is_prefix_of(r.reused) || r.reused == prev.reused);
            assert(r.reused[j] == prev.reused[j]);
            lemma_reused_unchanged(s, d, changes, now, j);
        }
    }
}

/// Copies matches field by field.
pub fn copy_matches(v: &Vec<Match>) -> (r: Vec<Match>)
    ensures
        r@.len() == v@.len(),
        forall|i: int| 0 <= i < r@.len() ==> match_view(#[trigger] r@[i]) == match_view(v@[i]),
{
    let mut r: Vec<Match> = Vec::new();
    let mut i: usize = 0;
    while i < v.len()
        invariant
            0 <= i <= v@.len(),
            r@.len() == i,
            forall|k: int| 0 <= k < i ==> match_view(#[trigger] r@[k]) == match_view(v@[k]),
        decreases v@.len() - i,
    {
        r.push(v[i].clone());
        i = i + 1;
    }
    r
}

impl CacheTable {
    /// The entries as (path, entry) pairs.
    pub closed spec fn view_entries(&self) -> Seq<(Seq<char>, FileCacheEntry)> {
        table_view(self.entries@)
    }

    /// An empty table.
    pub fn new() -> (t: Self)
        ensures
            t.view_entries() == Seq::<(Seq<char>, FileCacheEntry)>::empty(),
    {
        let t = CacheTable { entries: Vec::new() };
        assert(t.view_entries() =~= Seq::<(Seq<char>, FileCacheEntry)>::empty());
        t
    }

    /// The entries, each path with its entry, in the table's order.
    pub fn into_entries(self) -> (r: Vec<(String, FileCacheEntry)>)
        ensures
            table_view(r@) == self.view_entries(),
    {
        self.entries
    }

    /// Stores an entry for `key` (see [`insert_key`]).
    pub fn insert(&mut self, key: String, e: FileCacheEntry)
        ensures
            final(self).view_entries() == insert_key(old(self).view_entries(), key@, e),
    {
        match self.find(key.as_str()) {
            Some(i) => {
                let ghost v0 = self.entries@;
                let mut entries: Vec<(String, FileCacheEntry)> = Vec::new();
                std::mem::swap(&mut entries, &mut self.entries);
                let (k, _) = entries.remove(i);
                entries.insert(i, (k, e));
                self.entries = entries;
                assert(table_view(self.entries@) =~= table_view(v0).update(
                    i as int,
                    (table_view(v0)[i as int].0, e),
                ));
            },
            None => {
                let ghost v0 = self.entries@;
                let ghost kv = key@;
                self.entries.push((key, e));
                assert(table_view(self.entries@) =~= table_view(v0).push((kv, e)));
            },
        }
    }

    /// The index of the entry for `key` (see [`find_key`]).
    pub fn find(&self, key: &str) -> (r: Option<usize>)
        ensures
            match r {
                Some(j) => find_key(self.view_entries(), key@) == Some(j as int) && j
                    < self.view_entries().len(),
                None => find_key(self.view_entries(), key@) is None,
            },
    {
        let ghost t = self.view_entries();
        let mut i: usize = 0;
        while i < self.entries.len()
            invariant
                0 <= i <= self.entries@.len(),
                t == table_view(self.entries@),
                find_key(t, key@) == find_from(t, key@, i as int),
            decreases self.entries@.len() - i,
        {
            assert(t[i as int].0 == self.entries@[i as int].0@);
            if same_path(self.entries[i].0.as_str(), key) {
                return Some(i);
            }
            i = i + 1;
        }
        None
    }

    /// Removes and returns the entry for `key`.
    pub fn remove(&mut self, key: &str) -> (r: Option<FileCacheEntry>)
        ensures
            final(self).view_entries() == remove_key(old(self).view_entries(), key@),
            match find_key(old(self).view_entries(), key@) {
                Some(i) => r == Some(old(self).view_entries()[i].1),
                None => r is None,
            },
    {
        match self.find(key) {
            Some(i) => {
                let ghost v0 = self.entries@;
                let (_, e) = self.entries.remove(i);
                assert(table_view(self.entries@) =~= table_view(v0).remove(i as int));
                Some(e)
            },
            None => None,
        }
    }
}

/// The reused results as file results: each path with copies of its
/// cached matches.
pub open spec fn results_match(rs: Seq<FileResult>, reused: Seq<(Seq<char>, Seq<Match>)>) -> bool {
    &&& rs.len() == reused.len()
    &&& forall|i: int|
        0 <= i < rs.len() ==> (#[trigger] rs[i]).path@ == reused[i].0 && rs[i].matches@.len()
            == reused[i].1.len() && forall|j: int|
            0 <= j < rs[i].matches@.len() ==> match_view(#[trigger] rs[i].matches@[j])
                == match_view(reused[i].1[j])
}

/// Every entry can be used once per file without its use count running
/// over.
pub open spec fn counts_room(t: Seq<(Seq<char>, FileCacheEntry)>, n: nat) -> bool {
    forall|i: int| 0 <= i < t.len() ==> (#[trigger] t[i]).1.access_count + n <= u64::MAX
}

/// Removing an entry keeps room in the use counts of the others.
proof fn lemma_room_remove(t: Seq<(Seq<char>, FileCacheEntry)>, key: Seq<char>, n: nat)
    requires
        counts_room(t, n),
    ensures
        counts_room(remove_key(t, key), n),
        find_key(t, key) matches Some(i) ==> 0 <= i < t.len(),
{
    lemma_find_from(t, key, 0);
    if let Some(ix) = find_key(t, key) {
        let r = remove_key(t, key);
        assert forall|j: int| 0 <= j < r.len() implies (#[trigger] r[j]).1.access_count + n <= u64::MAX by {
            if j < ix {
                assert(r[j] == t[j]);
            } else {
                assert(r[j] == t[j + 1]);
            }
        }
    }
}

/// Storing an entry with room in its use count keeps room in the table.
proof fn lemma_room_insert(t: Seq<(Seq<char>, FileCacheEntry)>, key: Seq<char>, e: FileCacheEntry, n: nat)
    requires
        counts_room(t, n),
        e.access_count + n <= u64::MAX,
    ensures
        counts_room(insert_key(t, key, e), n),
{
    lemma_find_from(t, key, 0);
    let r = insert_key(t, key, e);
    assert forall|j: int| 0 <= j < r.len() implies (#[trigger] r[j]).1.access_count + n <= u64::MAX by {
        if j < t.len() && r[j] != t[j] {
            assert(r[j].1 == e);
        }
    }
}

/// Decides, file by file, which files are searched again and which cached
/// results are reused (see [`decide_all`]), updating the table; `now` is
/// the time recorded for reused entries. Returns the files to search, the
/// reused results and the number of cache hits.
pub fn plan_incremental(
    table: &mut CacheTable,
    files: &Vec<String>,
    changes: &Vec<FileChangeInfo>,
    now: u64,
) -> (r: (Vec<String>, Vec<FileResult>, usize))
    requires
        counts_room(old(table).view_entries(), files@.len() as nat),
    ensures
        ({
            let s = decide_all(
                IncrementalState {
                    table: old(table).view_entries(),
                    to_search: seq![],
                    reused: seq![],
                    hits: 0,
                },
                files@.map_values(|f: String| f@),
                changes@,
                now,
            );
            &&& final(table).view_entries() == s.table
            &&& r.0@.map_values(|f: String| f@) == s.to_search
            &&& results_match(r.1@, s.reused)
            &&& r.2 == s.hits
        }),
{
    let ghost fv = files@.map_values(|f: String| f@);
    let ghost s0 = IncrementalState {
        table: table.view_entries(),
        to_search: seq![],
        reused: seq![],
        hits: 0,
    };
    let mut to_search: Vec<String> = Vec::new();
    let mut reused: Vec<FileResult> = Vec::new();
    let mut hits: usize = 0;
    let mut i: usize = 0;
    assert(fv.take(0) =~= Seq::<Seq<char>>::empty());
    assert(to_search@.map_values(|f: String| f@) =~= Seq::<Seq<char>>::empty());
    while i < files.len()
        invariant
            0 <= i <= files@.len(),
            fv == files@.map_values(|f: String| f@),
            ({
                let s = decide_all(s0, fv.take(i as int), changes@, now);
                &&& table.view_entries() == s.table
                &&& to_search@.map_values(|f: String| f@) == s.to_search
                &&& results_match(reused@, s.reused)
                &&& hits == s.hits
            }),
            hits <= i,
            counts_room(table.view_entries(), (files@.len() - i) as nat),
        decreases files@.len() - i,
    {
        let file = &files[i];
        let ghost prev = decide_all(s0, fv.take(i as int), changes@, now);
        assert(fv.take(i + 1).drop_last() =~= fv.take(i as int));
        assert(fv.take(i + 1).last() == file@);
        let mut k: usize = 0;
        let mut found: Option<usize> = None;
        while found.is_none() && k < changes.len()
            invariant
                0 <= k <= changes@.len(),
                found is None ==> change_from(changes@, file@, 0) == change_from(changes@, file@, k as int),
                found matches Some(x) ==> x < changes@.len() && change_from(changes@, file@, 0) == Some(x as int),
            decreases changes@.len() - k + if found is None { 1int } else { 0int },
        {
            if same_path(changes[k].path.as_str(), file.as_str()) {
                found = Some(k);
            } else {
                k = k + 1;
            }
        }
        let status: Option<ChangeStatus> = match found {
            Some(x) => Some(changes[x].status.clone()),
            None => None,
        };
        proof {
            if found is None {
                assert(change_from(changes@, file@, changes@.len() as int) is None);
            }
        }
        let ghost want = decide_file(prev, file@, status, now);
        assert(want == decide_all(s0, fv.take(i + 1), changes@, now));
        match status {
            Some(ChangeStatus::Added) | Some(ChangeStatus::Modified) => {
                let ghost t0 = to_search@;
                to_search.push(copy_string(file));
                assert(to_search@.map_values(|f: String| f@) =~= t0.map_values(|f: String| f@).push(file@));
            },
            Some(ChangeStatus::Renamed(old)) => {
                let ghost tb = table.view_entries();
                proof {
                    lemma_room_remove(tb, old@, (files@.len() - i) as nat);
                }
                match table.remove(old.as_str()) {
                    Some(entry) => {
                        let ghost tr = table.view_entries();
                        let ghost key = file@;
                        table.insert(copy_string(file), entry);
                        hits = hits + 1;
                        proof {
                            lemma_room_insert(tr, key, entry, (files@.len() - i - 1) as nat);
                        }
                    },
                    None => {
                        let ghost t0 = to_search@;
                        to_search.push(copy_string(file));
                        assert(to_search@.map_values(|f: String| f@) =~= t0.map_values(|f: String| f@).push(file@));
                    },
                }
            },
            Some(ChangeStatus::Deleted) => {
                proof {
                    lemma_room_remove(table.view_entries(), file@, (files@.len() - i - 1) as nat);
                }
                table.remove(file.as_str());
            },
            _ => {
                let ghost tb = table.view_entries();
                match table.find(file.as_str()) {
                    Some(ix) => {
                        let has = table.entries[ix].1.search_results.is_some();
                        if has {
                            let copy = match &table.entries[ix].1.search_results {
                                Some(m) => copy_matches(m),
                                None => Vec::new(),
                            };
                            table.mark(ix, now);
                            hits = hits + 1;
                            let ghost r0 = reused@;
                            reused.push(FileResult { path: copy_string(file), matches: copy });
                            assert(results_match(reused@, want.reused)) by {
                                assert forall|a: int| 0 <= a < reused@.len() implies (#[trigger] reused@[a]).path@ == want.reused[a].0 && reused@[a].matches@.len() == want.reused[a].1.len() && forall|j: int|
                                    0 <= j < reused@[a].matches@.len() ==> match_view(#[trigger] reused@[a].matches@[j]) == match_view(want.reused[a].1[j]) by {
                                    if a < r0.len() {
                                        assert(reused@[a] == r0[a]);
                                    }
                                }
                            }
                            assert(counts_room(table.view_entries(), (files@.len() - i - 1) as nat)) by {
                                assert forall|j: int| 0 <= j < table.view_entries().len() implies (#[trigger] table.view_entries()[j]).1.access_count + (files@.len() - i - 1) <= u64::MAX by {
                                    assert(tb[j].1.access_count + (files@.len() - i) <= u64::MAX);
                                }
                            }
                        } else {
                            let ghost t0 = to_search@;
                            to_search.push(copy_string(file));
                            assert(to_search@.map_values(|f: String| f@) =~= t0.map_values(|f: String| f@).push(file@));
                        }
                    },
                    None => {
                        let ghost t0 = to_search@;
                        to_search.push(copy_string(file));
                        assert(to_search@.map_values(|f: String| f@) =~= t0.map_values(|f: String| f@).push(file@));
                    },
                }
            },
        }
        i = i + 1;
    }
    assert(fv.take(files@.len() as int) =~= fv);
    (to_search, reused, hits)
}

impl CacheTable {
    /// Records a use of entry `i` at `now`.
    fn mark(&mut self, i: usize, now: u64)
        requires
            i < old(self).view_entries().len(),
            old(self).view_entries()[i as int].1.access_count < u64::MAX,
        ensures
            final(self).view_entries() == old(self).view_entries().update(
                i as int,
                (old(self).view_entries()[i as int].0, accessed(old(self).view_entries()[i as int].1, now)),
            ),
    {
        let ghost v0 = self.entries@;
        let mut entries: Vec<(String, FileCacheEntry)> = Vec::new();
        std::mem::swap(&mut entries, &mut self.entries);
        let (k, mut e) = entries.remove(i);
        e.mark_accessed(now);
        entries.insert(i, (k, e));
        self.entries = entries;
        assert(table_view(self.entries@) =~= table_view(v0).update(
            i as int,
            (table_view(v0)[i as int].0, accessed(table_view(v0)[i as int].1, now)),
        ));
    }
}

/// The items of `v` in reverse order.
pub fn reversed<T>(v: Vec<T>) -> (r: Vec<T>)
    ensures
        r@ == v@.reverse(),
{
    let ghost orig = v@;
    let mut src = v;
    let mut r: Vec<T> = Vec::new();
    while src.len() > 0
        invariant
            src@ == orig.take(src@.len() as int),
            src@.len() <= orig.len(),
            r@ == orig.subrange(src@.len() as int, orig.len() as int).reverse(),
        decreases src@.len(),
    {
        let ghost k = src@.len();
        let x = src.pop().unwrap();
        r.push(x);
        assert(src@ =~= orig.take(k - 1));
        assert(r@ =~= orig.subrange(k - 1, orig.len() as int).reverse());
    }
    assert(r@ =~= orig.reverse());
    r
}

/// The index of the first failed outcome.
pub open spec fn first_error(outcomes: Seq<Result<FileResult, SearchError>>) -> Option<int>
    decreases outcomes.len(),
{
    if outcomes.len() == 0 {
        None
    } else {
        match first_error(outcomes.drop_last()) {
            Some(k) => Some(k),
            None => if outcomes.last() is Err {
                Some(outcomes.len() - 1)
            } else {
                None
            },
        }
    }
}

/// The successful results that have at least one match, in order.
pub open spec fn kept_results(outcomes: Seq<Result<FileResult, SearchError>>) -> Seq<FileResult>
    decreases outcomes.len(),
{
    if outcomes.len() == 0 {
        seq![]
    } else {
        let before = kept_results(outcomes.drop_last());
        match outcomes.last() {
            Ok(fr) => if fr.matches@.len() > 0 {
                before.push(fr)
            } else {
                before
            },
            Err(_) => before,
        }
    }
}

/// Gathers the outcomes of processing the files, in order. With `FailFast`
/// the first failure is the result; with `Lossy` failures are skipped.
/// Results without matches are dropped.
pub fn collect_results(outcomes: Vec<Result<FileResult, SearchError>>, mode: EncodingMode) -> (r: Result<
    Vec<FileResult>,
    SearchError,
>)
    ensures
        match (mode, first_error(outcomes@)) {
            (EncodingMode::FailFast, Some(k)) => r matches Err(x) && outcomes@[k] == Err::<
                FileResult,
                SearchError,
            >(x),
            _ => r matches Ok(v) && v@ == kept_results(outcomes@),
        },
{
    let ghost all = outcomes@;
    let mut kept: Vec<FileResult> = Vec::new();
    let mut rest = outcomes;
    rest = reversed(rest);
    let mut i: usize = 0;
    let n = rest.len();
    while rest.len() > 0
        invariant
            n == all.len(),
            all == outcomes@,
            i + rest@.len() == n,
            rest@ == all.subrange(i as int, n as int).reverse(),
            kept@ == kept_results(all.take(i as int)),
            mode == EncodingMode::FailFast ==> first_error(all.take(i as int)) is None,
        decreases rest@.len(),
    {
        let ghost before = rest@;
        let o = rest.pop().unwrap();
        assert(o == all[i as int]);
        assert(all.take(i + 1).drop_last() =~= all.take(i as int));
        match o {
            Ok(fr) => {
                if fr.matches.len() > 0 {
                    kept.push(fr);
                }
            },
            Err(e) => {
                if mode == EncodingMode::FailFast {
                    proof {
                        assert(all[i as int] == Err::<FileResult, SearchError>(e));
                        assert(first_error(all.take(i + 1)) == Some(i as int));
                        lemma_first_error_prefix(all, i as int + 1);
                    }
                    return Err(e);
                }
            },
        }
        assert(rest@ =~= all.subrange(i + 1, n as int).reverse());
        i = i + 1;
    }
    assert(all.take(n as int) =~= all);
    Ok(kept)
}

/// The first failure of a prefix that has one is the first failure of the
/// whole.
pub proof fn lemma_first_error_prefix(all: Seq<Result<FileResult, SearchError>>, m: int)
    requires
        0 <= m <= all.len(),
        first_error(all.take(m)) is Some,
    ensures
        first_error(all) == first_error(all.take(m)),
    decreases all.len() - m,
{
    if m < all.len() {
        assert(all.take(m + 1).drop_last() =~= all.take(m));
        lemma_first_error_prefix(all, m + 1);
    } else {
        assert(all.take(m) =~= all);
    }
}

/// The search output of the given file results, in order: every result
/// is counted as a file searched.
pub fn assemble_output(first: Vec<FileResult>, second: Vec<FileResult>) -> (r: SearchResult)
    requires
        total_of(first@ + second@) <= usize::MAX,
    ensures
        r.file_results@ == first@ + second@,
        consistent(r),
{
    let ghost all = first@ + second@;
    let mut out = SearchResult::new();
    let mut rest: Vec<FileResult> = first;
    let mut tail: Vec<FileResult> = second;
    rest.append(&mut tail);
    assert(rest@ == all);
    rest = reversed(rest);
    let n = rest.len();
    let mut i: usize = 0;
    while rest.len() > 0
        invariant
            n == all.len(),
            i + rest@.len() == n,
            rest@ == all.subrange(i as int, n as int).reverse(),
            out.file_results@ == all.take(i as int),
            consistent(out),
            total_of(all) <= usize::MAX,
        decreases rest@.len(),
    {
        let fr = rest.pop().unwrap();
        assert(fr == all[i as int]);
        proof {
            lemma_total_prefix(all, i as int + 1);
            lemma_with_matches_len(all.take(i as int));
            assert(all.take(i + 1).drop_last() =~= all.take(i as int));
            assert(all.take(i + 1).last() == fr);
        }
        out.add_file_result(fr);
        assert(out.file_results@ =~= all.take(i + 1));
        assert(rest@ =~= all.subrange(i + 1, n as int).reverse());
        i = i + 1;
    }
    assert(all.take(n as int) =~= all);
    out
}

/// No more files have matches than there are results.
proof fn lemma_with_matches_len(s: Seq<FileResult>)
    ensures
        with_matches(s) <= s.len(),
    decreases s.len(),
{
    if s.len() > 0 {
        lemma_with_matches_len(s.drop_last());
    }
}

/// A prefix counts no more matches than the whole.
proof fn lemma_total_prefix(all: Seq<FileResult>, m: int)
    requires
        0 <= m <= all.len(),
    ensures
        total_of(all.take(m)) <= total_of(all),
        all.take(m).len() <= all.len(),
    decreases all.len() - m,
{
    if m < all.len() {
        assert(all.take(m + 1).drop_last() =~= all.take(m));
        lemma_total_prefix(all, m + 1);
    } else {
        assert(all.take(m) =~= all);
    }
}

/// The table after storing a fresh entry, accessed at `now`, for each
/// path in order.
pub open spec fn store_all(
    t: Seq<(Seq<char>, FileCacheEntry)>,
    paths: Seq<Seq<char>>,
    sigs: Seq<FileSignature>,
    now: u64,
) -> Seq<(Seq<char>, FileCacheEntry)>
    decreases paths.len(),
{
    if paths.len() == 0 {
        t
    } else {
        let before = store_all(t, paths.drop_last(), sigs, now);
        insert_key(
            before,
            paths.last(),
            FileCacheEntry {
                signature: sigs[paths.len() - 1],
                search_results: None,
                last_accessed: now,
                access_count: 0,
            },
        )
    }
}

/// Stores a fresh entry, without results, for each searched file with its
/// signature.
pub fn store_fresh(table: &mut CacheTable, paths: &Vec<String>, sigs: Vec<FileSignature>, now: u64)
    requires
        paths@.len() == sigs@.len(),
    ensures
        final(table).view_entries() == store_all(
            old(table).view_entries(),
            paths@.map_values(|p: String| p@),
            sigs@,
            now,
        ),
{
    let ghost pv = paths@.map_values(|p: String| p@);
    let ghost t0 = table.view_entries();
    let ghost sv = sigs@;
    let mut rest = sigs;
    rest = reversed(rest);
    let n = paths.len();
    let mut i: usize = 0;
    while i < n
        invariant
            n == paths@.len(),
            n == sv.len(),
            pv == paths@.map_values(|p: String| p@),
            i + rest@.len() == n,
            rest@ == sv.subrange(i as int, n as int).reverse(),
            table.view_entries() == store_all(t0, pv.take(i as int), sv, now),
        decreases n - i,
    {
        let sig = rest.pop().unwrap();
        assert(sig == sv[i as int]);
        proof {
            assert(pv.take(i + 1).drop_last() =~= pv.take(i as int));
            assert(pv.take(i + 1).last() == paths@[i as int]@);
        }
        table.insert(copy_string(&paths[i]), FileCacheEntry::new(sig, now));
        assert(rest@ =~= sv.subrange(i + 1, n as int).reverse());
        i = i + 1;
    }
    assert(pv.take(n as int) =~= pv);
}

} // verus!
