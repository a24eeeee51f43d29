//! Directory snapshots and change detection.
//!
//! The caller walks the source tree and hands in one [`SourceFile`] per
//! regular file; the scanner applies the exclusion patterns, hashes contents
//! when asked to, and produces a [`ScanResult`] whose aggregate fields are
//! proved consistent.  [`compute_diff`] classifies every path of two
//! snapshots as added, modified, unchanged or deleted.

use vstd::prelude::*;
use crate::crypto::blake3_of;
use crate::text::component_contains;
use crate::text::component_contains_exec;
use crate::text::lower_hex;
use crate::text::str_eq;
use crate::text::to_chars;
use crate::text::wf_rel_path;

verus! {

/// Error met while walking or reading a source tree.  The traversal itself
/// happens at the caller; these variants carry its report.
#[derive(Debug, Clone, PartialEq, Eq)]
pub enum ScanError {
    DirectoryNotFound(String),
    Io(String),
    Walk(String),
}

/// One regular file of the source tree, as the caller read it: the path
/// relative to the scan root with forward slashes, the size and modification
/// time from its metadata, and its content.
pub struct SourceFile {
    pub relative_path: String,
    /// Size in bytes.
    pub size: u64,
    /// Modification instant, milliseconds since the Unix epoch, UTC.
    pub modified: i64,
    pub data: Vec<u8>,
}

/// Metadata recorded for one scanned file.
#[derive(Debug)]
pub struct FileInfo {
    /// Path relative to the scan root, forward slashes only.
    pub relative_path: String,
    /// Size in bytes.
    pub size: u64,
    /// Modification instant, milliseconds since the Unix epoch, UTC.
    pub modified: i64,
    /// Lowercase hexadecimal BLAKE3 digest of the content, when hashing was
    /// enabled.
    pub hash: Option<String>,
}

impl Clone for FileInfo {
    fn clone(&self) -> (r: Self)
        ensures
            r == *self,
    {
        FileInfo {
            relative_path: self.relative_path.clone(),
            size: self.size,
            modified: self.modified,
            hash: match &self.hash {
                Some(h) => Some(h.clone()),
                None => None,
            },
        }
    }
}

impl FileInfo {
    /// Records the content hash for this file's bytes.
    pub fn compute_hash(&mut self, data: &[u8])
        ensures
            final(self).hash is Some,
            (final(self).hash->0)@ == lower_hex(blake3_of(data@)),
            final(self).relative_path == old(self).relative_path,
            final(self).size == old(self).size,
            final(self).modified == old(self).modified,
    {
        self.hash = Some(crate::crypto::blake3_hex(data));
    }
}

/// The sum of the sizes of the scanned files.
pub open spec fn sum_sizes(s: Seq<FileInfo>) -> int
    decreases s.len(),
{
    if s.len() == 0 {
        0
    } else {
        sum_sizes(s.drop_last()) + s.last().size
    }
}

/// The sum of the sizes of the source entries.
pub open spec fn sum_source_sizes(s: Seq<SourceFile>) -> int
    decreases s.len(),
{
    if s.len() == 0 {
        0
    } else {
        sum_source_sizes(s.drop_last()) + s.last().size
    }
}

/// Some scanned file carries this relative path.
pub open spec fn has_path(s: Seq<FileInfo>, k: Seq<char>) -> bool {
    exists|i: int| 0 <= i < s.len() && s[i].relative_path@ == k
}

/// The index of the file carrying this relative path.
pub open spec fn index_of_path(s: Seq<FileInfo>, k: Seq<char>) -> int {
    choose|i: int| 0 <= i < s.len() && s[i].relative_path@ == k
}

/// The file carrying this relative path.
pub open spec fn info_at(s: Seq<FileInfo>, k: Seq<char>) -> FileInfo {
    s[index_of_path(s, k)]
}

/// No two scanned files carry the same relative path.
pub open spec fn unique_paths(s: Seq<FileInfo>) -> bool {
    forall|i: int, j: int|
        0 <= i < j < s.len() ==> s[i].relative_path@ != s[j].relative_path@
}

/// Some source entry carries this relative path.
pub open spec fn source_has_path(s: Seq<SourceFile>, k: Seq<char>) -> bool {
    exists|i: int| 0 <= i < s.len() && s[i].relative_path@ == k
}

/// No two source entries carry the same relative path.
pub open spec fn unique_source_paths(s: Seq<SourceFile>) -> bool {
    forall|i: int, j: int|
        0 <= i < j < s.len() ==> s[i].relative_path@ != s[j].relative_path@
}

/// Every source entry carries a well-formed relative path: forward slashes
/// only, no leading slash, no `..` component.
pub open spec fn wf_source_paths(s: Seq<SourceFile>) -> bool {
    forall|i: int| 0 <= i < s.len() ==> wf_rel_path((#[trigger] s[i]).relative_path@)
}

/// A snapshot produced by one scan.
#[derive(Debug)]
pub struct ScanResult {
    /// The scanned root.
    pub source_dir: String,
    /// When the scan was taken, milliseconds since the Unix epoch, UTC.
    pub scanned_at: i64,
    /// The scanned files; relative paths are unique.
    pub files: Vec<FileInfo>,
    /// Always the number of scanned files.
    pub total_files: usize,
    /// Always the sum of the scanned files' sizes.
    pub total_size: u64,
}

impl ScanResult {
    /// The aggregate fields agree with `files`, whose paths are unique.
    pub open spec fn wf(&self) -> bool {
        &&& self.total_files == self.files@.len()
        &&& self.total_size == sum_sizes(self.files@)
        &&& unique_paths(self.files@)
    }

    /// Looks a file up by its relative path.
    pub fn get(&self, path: &str) -> (r: Option<&FileInfo>)
        ensures
            r is Some <==> has_path(self.files@, path@),
            r is Some ==> (r->0).relative_path@ == path@,
            r is Some ==> exists|i: int|
                0 <= i < self.files@.len() && self.files@[i] == *(r->0),
    {
        let mut i: usize = 0;
        while i < self.files.len()
            invariant
                i <= self.files@.len(),
                forall|j: int| 0 <= j < i ==> self.files@[j].relative_path@ != path@,
            decreases self.files@.len() - i,
        {
            if str_eq(self.files[i].relative_path.as_str(), path) {
                return Some(&self.files[i]);
            }
            i += 1;
        }
        None
    }

    /// Whether a file with this relative path was scanned.
    pub fn contains_path(&self, path: &str) -> (r: bool)
        ensures
            r == has_path(self.files@, path@),
    {
        self.get(path).is_some()
    }
}

/// The exclusion decision: some pattern occurs inside some component of the
/// path.
pub open spec fn is_excluded_spec(patterns: Seq<Seq<char>>, path: Seq<char>) -> bool {
    exists|k: int| 0 <= k < patterns.len() && component_contains(path, patterns[k])
}

/// The `FileInfo` a scan records for a source entry: same path, size and
/// modification time, and the content hash exactly when hashing is enabled.
pub open spec fn info_of_entry(info: FileInfo, e: SourceFile, hashing: bool) -> bool {
    &&& info.relative_path@ == e.relative_path@
    &&& info.size == e.size
    &&& info.modified == e.modified
    &&& if hashing {
        info.hash is Some && (info.hash->0)@ == lower_hex(blake3_of(e.data@))
    } else {
        info.hash is None
    }
}

/// The scanned files are exactly the source entries that no pattern
/// excludes, in order, each recorded as `info_of_entry` says.
pub open spec fn files_match_entries(
    files: Seq<FileInfo>,
    entries: Seq<SourceFile>,
    patterns: Seq<Seq<char>>,
    hashing: bool,
) -> bool
    decreases entries.len(),
{
    if entries.len() == 0 {
        files.len() == 0
    } else {
        let e = entries.last();
        if is_excluded_spec(patterns, e.relative_path@) {
            files_match_entries(files, entries.drop_last(), patterns, hashing)
        } else {
            &&& files.len() > 0
            &&& info_of_entry(files.last(), e, hashing)
            &&& files_match_entries(files.drop_last(), entries.drop_last(), patterns, hashing)
        }
    }
}

/// Exclusion law: no scanned file lies under an excluded name.
pub proof fn lemma_scan_excludes(
    files: Seq<FileInfo>,
    entries: Seq<SourceFile>,
    patterns: Seq<Seq<char>>,
    hashing: bool,
)
    requires
        files_match_entries(files, entries, patterns, hashing),
    ensures
        forall|i: int|
            0 <= i < files.len() ==> !is_excluded_spec(
                patterns,
                #[trigger] files[i].relative_path@,
            ),
    decreases entries.len(),
{
    if entries.len() > 0 {
        let e = entries.last();
        if is_excluded_spec(patterns, e.relative_path@) {
            lemma_scan_excludes(files, entries.drop_last(), patterns, hashing);
        } else {
            lemma_scan_excludes(files.drop_last(), entries.drop_last(), patterns, hashing);
            assert(forall|i: int|
                0 <= i < files.len() - 1 ==> files[i] == files.drop_last()[i]);
        }
    }
}

/// Every scanned path comes from some source entry, and distinct source
/// paths keep the scanned paths distinct.
pub proof fn lemma_scan_paths(
    files: Seq<FileInfo>,
    entries: Seq<SourceFile>,
    patterns: Seq<Seq<char>>,
    hashing: bool,
)
    requires
        files_match_entries(files, entries, patterns, hashing),
        unique_source_paths(entries),
    ensures
        forall|k: Seq<char>| #[trigger] has_path(files, k) ==> source_has_path(entries, k),
        unique_paths(files),
    decreases entries.len(),
{
    if entries.len() == 0 {
    } else {
        let e = entries.last();
        let rest = entries.drop_last();
        assert(forall|i: int| 0 <= i < rest.len() ==> rest[i] == entries[i]);
        assert(unique_source_paths(rest));
        if is_excluded_spec(patterns, e.relative_path@) {
            lemma_scan_paths(files, rest, patterns, hashing);
            assert forall|k: Seq<char>| #[trigger] has_path(files, k) implies source_has_path(
                entries,
                k,
            ) by {
                assert(source_has_path(rest, k));
                let i = choose|i: int| 0 <= i < rest.len() && rest[i].relative_path@ == k;
                assert(entries[i].relative_path@ == k);
            }
        } else {
            let fr = files.drop_last();
            lemma_scan_paths(fr, rest, patterns, hashing);
            assert(forall|i: int| 0 <= i < fr.len() ==> fr[i] == files[i]);
            // the last file's path is the last entry's path, which no earlier
            // entry carries
            assert forall|k: Seq<char>| #[trigger] has_path(files, k) implies source_has_path(
                entries,
                k,
            ) by {
                let i = choose|i: int| 0 <= i < files.len() && files[i].relative_path@ == k;
                if i < files.len() - 1 {
                    assert(has_path(fr, k));
                    assert(source_has_path(rest, k));
                    let j = choose|j: int| 0 <= j < rest.len() && rest[j].relative_path@ == k;
                    assert(entries[j].relative_path@ == k);
                } else {
                    assert(entries.last().relative_path@ == k);
                }
            }
            assert forall|i: int, j: int|
                0 <= i < j < files.len() implies files[i].relative_path@
                != files[j].relative_path@ by {
                if j < files.len() - 1 {
                    assert(fr[i].relative_path@ != fr[j].relative_path@);
                } else {
                    // files[j] is the last entry; files[i] comes from an
                    // earlier entry, and entry paths are unique
                    assert(has_path(fr, files[i].relative_path@));
                    assert(source_has_path(rest, files[i].relative_path@));
                    let m = choose|m: int|
                        0 <= m < rest.len() && rest[m].relative_path@
                            == files[i].relative_path@;
                    assert(entries[m].relative_path@ != e.relative_path@);
                }
            }
        }
    }
}

/// The sum of the scanned sizes never exceeds the sum of the source sizes.
pub proof fn lemma_scan_sum_le(
    files: Seq<FileInfo>,
    entries: Seq<SourceFile>,
    patterns: Seq<Seq<char>>,
    hashing: bool,
)
    requires
        files_match_entries(files, entries, patterns, hashing),
    ensures
        sum_sizes(files) <= sum_source_sizes(entries),
    decreases entries.len(),
{
    if entries.len() == 0 {
    } else {
        let e = entries.last();
        if is_excluded_spec(patterns, e.relative_path@) {
            lemma_scan_sum_le(files, entries.drop_last(), patterns, hashing);
        } else {
            lemma_scan_sum_le(files.drop_last(), entries.drop_last(), patterns, hashing);
        }
    }
}

/// A sum of sizes is never negative.
pub proof fn lemma_sum_source_nonneg(s: Seq<SourceFile>)
    ensures
        sum_source_sizes(s) >= 0,
    decreases s.len(),
{
    if s.len() > 0 {
        lemma_sum_source_nonneg(s.drop_last());
    }
}

/// A prefix of the source entries weighs at most the whole.
pub proof fn lemma_source_prefix_sum_le(s: Seq<SourceFile>, i: int)
    requires
        0 <= i <= s.len(),
    ensures
        sum_source_sizes(s.subrange(0, i)) <= sum_source_sizes(s),
    decreases s.len() - i,
{
    if i == s.len() {
        assert(s.subrange(0, i) =~= s);
    } else {
        lemma_source_prefix_sum_le(s.drop_last(), i);
        assert(s.drop_last().subrange(0, i) =~= s.subrange(0, i));
    }
}


/// The views of a vector of strings.
pub open spec fn views_of(v: Seq<String>) -> Seq<Seq<char>> {
    v.map_values(|s: String| s@)
}

/// Two snapshots of the same path count as changed when both carry a content
/// hash and the hashes differ; without hashes, when size or modification
/// time differs.  The hash is authoritative.
pub open spec fn scan_changed(o: FileInfo, n: FileInfo) -> bool {
    if o.hash is Some && n.hash is Some {
        (o.hash->0)@ != (n.hash->0)@
    } else {
        o.size != n.size || o.modified != n.modified
    }
}

fn scan_changed_exec(o: &FileInfo, n: &FileInfo) -> (r: bool)
    ensures
        r == scan_changed(*o, *n),
{
    match (&o.hash, &n.hash) {
        (Some(a), Some(b)) => !str_eq(a.as_str(), b.as_str()),
        _ => o.size != n.size || o.modified != n.modified,
    }
}

/// Four disjoint lists of relative paths partitioning the union of both
/// snapshots' keys.
#[derive(Debug)]
pub struct DiffResult {
    /// In the current snapshot only.
    pub added: Vec<String>,
    /// In both, with different content.
    pub modified: Vec<String>,
    /// In the previous snapshot only.
    pub deleted: Vec<String>,
    /// In both, with equal content.
    pub unchanged: Vec<String>,
}

impl DiffResult {
    /// Whether anything was added, modified or deleted.
    pub fn has_changes(&self) -> (r: bool)
        ensures
            r == (self.added@.len() > 0 || self.modified@.len() > 0 || self.deleted@.len() > 0),
    {
        self.added.len() > 0 || self.modified.len() > 0 || self.deleted.len() > 0
    }

    /// How many paths were added, modified or deleted.
    pub fn changed_count(&self) -> (r: usize)
        requires
            self.added@.len() + self.modified@.len() + self.deleted@.len() <= usize::MAX,
        ensures
            r == self.added@.len() + self.modified@.len() + self.deleted@.len(),
    {
        self.added.len() + self.modified.len() + self.deleted.len()
    }
}

/// The paths of `new` that `old` does not carry, in scan order.
pub open spec fn added_of(old: Seq<FileInfo>, new: Seq<FileInfo>) -> Seq<Seq<char>>
    decreases new.len(),
{
    if new.len() == 0 {
        Seq::empty()
    } else {
        let rest = added_of(old, new.drop_last());
        if !has_path(old, new.last().relative_path@) {
            rest.push(new.last().relative_path@)
        } else {
            rest
        }
    }
}

/// The paths carried by both snapshots whose content changed, in scan order.
pub open spec fn modified_of(old: Seq<FileInfo>, new: Seq<FileInfo>) -> Seq<Seq<char>>
    decreases new.len(),
{
    if new.len() == 0 {
        Seq::empty()
    } else {
        let rest = modified_of(old, new.drop_last());
        let k = new.last().relative_path@;
        if has_path(old, k) && scan_changed(info_at(old, k), new.last()) {
            rest.push(k)
        } else {
            rest
        }
    }
}

/// The paths carried by both snapshots whose content is equal, in scan
/// order.
pub open spec fn unchanged_of(old: Seq<FileInfo>, new: Seq<FileInfo>) -> Seq<Seq<char>>
    decreases new.len(),
{
    if new.len() == 0 {
        Seq::empty()
    } else {
        let rest = unchanged_of(old, new.drop_last());
        let k = new.last().relative_path@;
        if has_path(old, k) && !scan_changed(info_at(old, k), new.last()) {
            rest.push(k)
        } else {
            rest
        }
    }
}

/// The paths of `old` that `new` no longer carries, in the previous scan's
/// order.
pub open spec fn deleted_of(old: Seq<FileInfo>, new: Seq<FileInfo>) -> Seq<Seq<char>>
    decreases old.len(),
{
    if old.len() == 0 {
        Seq::empty()
    } else {
        let rest = deleted_of(old.drop_last(), new);
        if !has_path(new, old.last().relative_path@) {
            rest.push(old.last().relative_path@)
        } else {
            rest
        }
    }
}

/// The differ's full classification: the four lists read exactly what the
/// four spec functions name.
pub open spec fn diff_classifies(
    old_files: Seq<FileInfo>,
    new_files: Seq<FileInfo>,
    d: DiffResult,
) -> bool {
    &&& views_of(d.added@) == added_of(old_files, new_files)
    &&& views_of(d.modified@) == modified_of(old_files, new_files)
    &&& views_of(d.unchanged@) == unchanged_of(old_files, new_files)
    &&& views_of(d.deleted@) == deleted_of(old_files, new_files)
}

pub(crate) proof fn lemma_push_contains(v: Seq<Seq<char>>, x: Seq<char>, k: Seq<char>)
    ensures
        v.push(x).contains(k) <==> (v.contains(k) || k == x),
{
    let t = v.push(x);
    assert(t[v.len() as int] == x);
    assert(forall|i: int| 0 <= i < v.len() ==> t[i] == v[i]);
    if v.contains(k) {
        let i = choose|i: int| 0 <= i < v.len() && v[i] == k;
        assert(t[i] == k);
    }
    if k == x {
        assert(t[v.len() as int] == k);
    }
    if t.contains(k) && k != x {
        let i = choose|i: int| 0 <= i < t.len() && t[i] == k;
        assert(0 <= i < v.len() && v[i] == k);
    }
}

pub(crate) proof fn lemma_has_path_drop(s: Seq<FileInfo>, k: Seq<char>)
    requires
        s.len() > 0,
    ensures
        has_path(s, k) <==> (has_path(s.drop_last(), k) || k == s.last().relative_path@),
{
    let pre = s.drop_last();
    assert(forall|i: int| 0 <= i < pre.len() ==> pre[i] == s[i]);
    if has_path(pre, k) {
        let i = choose|i: int| 0 <= i < pre.len() && pre[i].relative_path@ == k;
        assert(s[i].relative_path@ == k);
    }
    if k == s.last().relative_path@ {
        assert(s[s.len() - 1].relative_path@ == k);
    }
    if has_path(s, k) && k != s.last().relative_path@ {
        let i = choose|i: int| 0 <= i < s.len() && s[i].relative_path@ == k;
        assert(0 <= i < pre.len() && pre[i].relative_path@ == k);
    }
}

pub(crate) proof fn lemma_info_at_unique(s: Seq<FileInfo>, i: int)
    requires
        unique_paths(s),
        0 <= i < s.len(),
    ensures
        has_path(s, s[i].relative_path@),
        info_at(s, s[i].relative_path@) == s[i],
{
    let k = s[i].relative_path@;
    assert(has_path(s, k));
    let j = index_of_path(s, k);
    assert(0 <= j < s.len() && s[j].relative_path@ == k);
    if i < j {
        assert(s[i].relative_path@ != s[j].relative_path@);
    }
    if j < i {
        assert(s[j].relative_path@ != s[i].relative_path@);
    }
}

/// What it means for a path to be listed as added: in the current snapshot
/// and not in the previous one.
pub proof fn lemma_added_of_members(old: Seq<FileInfo>, new: Seq<FileInfo>)
    ensures
        forall|k: Seq<char>|
            #[trigger] added_of(old, new).contains(k) <==> (has_path(new, k) && !has_path(old, k)),
    decreases new.len(),
{
    if new.len() == 0 {
        assert forall|k: Seq<char>| !(#[trigger] has_path(new, k)) by {
            if has_path(new, k) {
                let i = choose|i: int| 0 <= i < new.len() && new[i].relative_path@ == k;
            }
        }
    } else {
        let pre = new.drop_last();
        let k0 = new.last().relative_path@;
        lemma_added_of_members(old, pre);
        assert forall|k: Seq<char>|
            #[trigger] added_of(old, new).contains(k) <==> (has_path(new, k) && !has_path(
                old,
                k,
            )) by {
            lemma_has_path_drop(new, k);
            if !has_path(old, k0) {
                lemma_push_contains(added_of(old, pre), k0, k);
            }
        }
    }
}

/// What it means for a path to be listed as deleted: in the previous
/// snapshot and not in the current one.
pub proof fn lemma_deleted_of_members(old: Seq<FileInfo>, new: Seq<FileInfo>)
    ensures
        forall|k: Seq<char>|
            #[trigger] deleted_of(old, new).contains(k) <==> (has_path(old, k) && !has_path(
                new,
                k,
            )),
    decreases old.len(),
{
    if old.len() == 0 {
        assert forall|k: Seq<char>| !(#[trigger] has_path(old, k)) by {
            if has_path(old, k) {
                let i = choose|i: int| 0 <= i < old.len() && old[i].relative_path@ == k;
            }
        }
    } else {
        let pre = old.drop_last();
        let k0 = old.last().relative_path@;
        lemma_deleted_of_members(pre, new);
        assert forall|k: Seq<char>|
            #[trigger] deleted_of(old, new).contains(k) <==> (has_path(old, k) && !has_path(
                new,
                k,
            )) by {
            lemma_has_path_drop(old, k);
            if !has_path(new, k0) {
                lemma_push_contains(deleted_of(pre, new), k0, k);
            }
        }
    }
}

/// What it means for a path to be listed as modified: in both snapshots,
/// with changed content.
pub proof fn lemma_modified_of_members(old: Seq<FileInfo>, new: Seq<FileInfo>)
    requires
        unique_paths(new),
    ensures
        forall|k: Seq<char>|
            #[trigger] modified_of(old, new).contains(k) <==> (has_path(new, k) && has_path(
                old,
                k,
            ) && scan_changed(info_at(old, k), info_at(new, k))),
    decreases new.len(),
{
    if new.len() == 0 {
        assert forall|k: Seq<char>| !(#[trigger] has_path(new, k)) by {
            if has_path(new, k) {
                let i = choose|i: int| 0 <= i < new.len() && new[i].relative_path@ == k;
            }
        }
    } else {
        let pre = new.drop_last();
        let k0 = new.last().relative_path@;
        assert(forall|i: int| 0 <= i < pre.len() ==> pre[i] == new[i]);
        assert(unique_paths(pre));
        lemma_modified_of_members(old, pre);
        lemma_info_at_unique(new, new.len() - 1);
        assert forall|k: Seq<char>|
            #[trigger] modified_of(old, new).contains(k) <==> (has_path(new, k) && has_path(
                old,
                k,
            ) && scan_changed(info_at(old, k), info_at(new, k))) by {
            lemma_has_path_drop(new, k);
            if has_path(old, k0) && scan_changed(info_at(old, k0), new.last()) {
                lemma_push_contains(modified_of(old, pre), k0, k);
            }
            if k == k0 {
                assert(info_at(new, k0) == new.last());
            } else if has_path(pre, k) {
                // looking the path up in the longer snapshot finds the same
                // file
                let i = choose|i: int| 0 <= i < pre.len() && pre[i].relative_path@ == k;
                lemma_info_at_unique(new, i);
                lemma_info_at_unique_pre(pre, i);
            }
        }
    }
}

/// What it means for a path to be listed as unchanged: in both snapshots,
/// with equal content.
pub proof fn lemma_unchanged_of_members(old: Seq<FileInfo>, new: Seq<FileInfo>)
    requires
        unique_paths(new),
    ensures
        forall|k: Seq<char>|
            #[trigger] unchanged_of(old, new).contains(k) <==> (has_path(new, k) && has_path(
                old,
                k,
            ) && !scan_changed(info_at(old, k), info_at(new, k))),
    decreases new.len(),
{
    if new.len() == 0 {
        assert forall|k: Seq<char>| !(#[trigger] has_path(new, k)) by {
            if has_path(new, k) {
                let i = choose|i: int| 0 <= i < new.len() && new[i].relative_path@ == k;
            }
        }
    } else {
        let pre = new.drop_last();
        let k0 = new.last().relative_path@;
        assert(forall|i: int| 0 <= i < pre.len() ==> pre[i] == new[i]);
        assert(unique_paths(pre));
        lemma_unchanged_of_members(old, pre);
        lemma_info_at_unique(new, new.len() - 1);
        assert forall|k: Seq<char>|
            #[trigger] unchanged_of(old, new).contains(k) <==> (has_path(new, k) && has_path(
                old,
                k,
            ) && !scan_changed(info_at(old, k), info_at(new, k))) by {
            lemma_has_path_drop(new, k);
            if has_path(old, k0) && !scan_changed(info_at(old, k0), new.last()) {
                lemma_push_contains(unchanged_of(old, pre), k0, k);
            }
            if k == k0 {
                assert(info_at(new, k0) == new.last());
            } else if has_path(pre, k) {
                let i = choose|i: int| 0 <= i < pre.len() && pre[i].relative_path@ == k;
                lemma_info_at_unique(new, i);
                lemma_info_at_unique_pre(pre, i);
            }
        }
    }
}

proof fn lemma_info_at_unique_pre(pre: Seq<FileInfo>, i: int)
    requires
        unique_paths(pre),
        0 <= i < pre.len(),
    ensures
        info_at(pre, pre[i].relative_path@) == pre[i],
{
    lemma_info_at_unique(pre, i);
}

/// Partition law: the four diff lists are pairwise disjoint and together
/// hold exactly the union of both snapshots' paths.
pub proof fn lemma_diff_partition(old: Seq<FileInfo>, new: Seq<FileInfo>)
    requires
        unique_paths(new),
    ensures
        forall|k: Seq<char>|
            #[trigger] added_of(old, new).contains(k) ==> !modified_of(old, new).contains(k)
                && !unchanged_of(old, new).contains(k) && !deleted_of(old, new).contains(k),
        forall|k: Seq<char>|
            #[trigger] modified_of(old, new).contains(k) ==> !unchanged_of(old, new).contains(k)
                && !deleted_of(old, new).contains(k),
        forall|k: Seq<char>|
            #[trigger] unchanged_of(old, new).contains(k) ==> !deleted_of(old, new).contains(k),
        forall|k: Seq<char>|
            (added_of(old, new).contains(k) || modified_of(old, new).contains(k) || unchanged_of(
                old,
                new,
            ).contains(k) || deleted_of(old, new).contains(k)) <==> (#[trigger] has_path(old, k)
                || has_path(new, k)),
{
    lemma_added_of_members(old, new);
    lemma_modified_of_members(old, new);
    lemma_unchanged_of_members(old, new);
    lemma_deleted_of_members(old, new);
}

/// Classifies every path of two snapshots.
pub fn compute_diff(old: &ScanResult, new: &ScanResult) -> (d: DiffResult)
    requires
        unique_paths(old.files@),
    ensures
        diff_classifies(old.files@, new.files@, d),
{
    let mut added: Vec<String> = Vec::new();
    let mut modified: Vec<String> = Vec::new();
    let mut unchanged: Vec<String> = Vec::new();
    let mut deleted: Vec<String> = Vec::new();
    let mut j: usize = 0;
    proof {
        assert(new.files@.subrange(0, 0) =~= Seq::<FileInfo>::empty());
    }
    while j < new.files.len()
        invariant
            j <= new.files@.len(),
            unique_paths(old.files@),
            views_of(added@) == added_of(old.files@, new.files@.subrange(0, j as int)),
            views_of(modified@) == modified_of(old.files@, new.files@.subrange(0, j as int)),
            views_of(unchanged@) == unchanged_of(old.files@, new.files@.subrange(0, j as int)),
            deleted@.len() == 0,
        decreases new.files@.len() - j,
    {
        let info = &new.files[j];
        let ghost k = info.relative_path@;
        let ghost pre = new.files@.subrange(0, j as int);
        let ghost post = new.files@.subrange(0, j + 1 as int);
        proof {
            assert(post.drop_last() =~= pre);
            assert(post.last() == new.files@[j as int]);
        }
        match old.get(info.relative_path.as_str()) {
            Some(o) => {
                proof {
                    let oi = choose|i: int| 0 <= i < old.files@.len() && old.files@[i] == *o;
                    lemma_info_at_unique(old.files@, oi);
                    assert(info_at(old.files@, k) == *o);
                }
                if scan_changed_exec(o, info) {
                    let ghost m0 = modified@;
                    modified.push(info.relative_path.clone());
                    proof {
                        assert(views_of(modified@) =~= views_of(m0).push(k));
                    }
                } else {
                    let ghost u0 = unchanged@;
                    unchanged.push(info.relative_path.clone());
                    proof {
                        assert(views_of(unchanged@) =~= views_of(u0).push(k));
                    }
                }
            },
            None => {
                let ghost a0 = added@;
                added.push(info.relative_path.clone());
                proof {
                    assert(views_of(added@) =~= views_of(a0).push(k));
                }
            },
        }
        j += 1;
    }
    proof {
        assert(new.files@.subrange(0, new.files@.len() as int) =~= new.files@);
        assert(old.files@.subrange(0, 0) =~= Seq::<FileInfo>::empty());
    }
    let mut t: usize = 0;
    while t < old.files.len()
        invariant
            t <= old.files@.len(),
            views_of(added@) == added_of(old.files@, new.files@),
            views_of(modified@) == modified_of(old.files@, new.files@),
            views_of(unchanged@) == unchanged_of(old.files@, new.files@),
            views_of(deleted@) == deleted_of(old.files@.subrange(0, t as int), new.files@),
        decreases old.files@.len() - t,
    {
        let info = &old.files[t];
        let ghost k = info.relative_path@;
        let ghost pre = old.files@.subrange(0, t as int);
        let ghost post = old.files@.subrange(0, t + 1 as int);
        proof {
            assert(post.drop_last() =~= pre);
            assert(post.last() == old.files@[t as int]);
        }
        if !new.contains_path(info.relative_path.as_str()) {
            let ghost d0 = deleted@;
            deleted.push(info.relative_path.clone());
            proof {
                assert(views_of(deleted@) =~= views_of(d0).push(k));
            }
        }
        t += 1;
    }
    proof {
        assert(old.files@.subrange(0, old.files@.len() as int) =~= old.files@);
    }
    DiffResult { added, modified, deleted, unchanged }
}

/// Walks a list of source entries into a snapshot, applying exclusion rules
/// and, when enabled, content hashing.
pub struct DirectoryScanner {
    source: String,
    exclude_patterns: Vec<String>,
    compute_hash: bool,
}

impl DirectoryScanner {
    /// The scan root.
    pub closed spec fn source_view(&self) -> Seq<char> {
        self.source@
    }

    /// The exclusion patterns, in order.
    pub closed spec fn patterns(&self) -> Seq<Seq<char>> {
        self.exclude_patterns@.map_values(|p: String| p@)
    }

    /// Whether content hashing is enabled.
    pub closed spec fn hashing(&self) -> bool {
        self.compute_hash
    }

    /// A scanner over `source` with the default exclusions and hashing
    /// disabled.
    pub fn new(source: &str) -> (r: Self)
        ensures
            r.source_view() == source@,
            r.patterns() =~= seq![
                ".git"@,
                "node_modules"@,
                "target"@,
                ".DS_Store"@,
                "Thumbs.db"@,
            ],
            !r.hashing(),
    {
        let mut patterns: Vec<String> = Vec::new();
        patterns.push(".git".to_owned());
        patterns.push("node_modules".to_owned());
        patterns.push("target".to_owned());
        patterns.push(".DS_Store".to_owned());
        patterns.push("Thumbs.db".to_owned());
        DirectoryScanner {
            source: source.to_owned(),
            exclude_patterns: patterns,
            compute_hash: false,
        }
    }

    /// Enables content hashing.
    pub fn with_hash(self) -> (r: Self)
        ensures
            r.source_view() == self.source_view(),
            r.patterns() == self.patterns(),
            r.hashing(),
    {
        DirectoryScanner {
            source: self.source,
            exclude_patterns: self.exclude_patterns,
            compute_hash: true,
        }
    }

    /// Appends an exclusion pattern.
    pub fn exclude(self, pattern: &str) -> (r: Self)
        ensures
            r.source_view() == self.source_view(),
            r.patterns() =~= self.patterns().push(pattern@),
            r.hashing() == self.hashing(),
    {
        let mut patterns = self.exclude_patterns;
        patterns.push(pattern.to_owned());
        DirectoryScanner {
            source: self.source,
            exclude_patterns: patterns,
            compute_hash: self.compute_hash,
        }
    }

    /// Whether the exclusion patterns reject this path.
    pub fn is_excluded(&self, path: &str) -> (r: bool)
        ensures
            r == is_excluded_spec(self.patterns(), path@),
    {
        let path_chars = to_chars(path);
        let mut k: usize = 0;
        while k < self.exclude_patterns.len()
            invariant
                k <= self.exclude_patterns@.len(),
                path_chars@ == path@,
                forall|m: int|
                    0 <= m < k ==> !component_contains(path@, self.patterns()[m]),
            decreases self.exclude_patterns@.len() - k,
        {
            let pat_chars = to_chars(self.exclude_patterns[k].as_str());
            if component_contains_exec(&path_chars, &pat_chars) {
                proof {
                    assert(component_contains(path@, self.patterns()[k as int]));
                }
                return true;
            }
            k += 1;
        }
        false
    }

    /// Builds the snapshot for the source entries the caller walked.
    /// Excluded entries are dropped; the rest are recorded in order, hashed
    /// when hashing is enabled; the aggregate counters are consistent.
    pub fn scan(&self, entries: &Vec<SourceFile>) -> (r: ScanResult)
        requires
            unique_source_paths(entries@),
            wf_source_paths(entries@),
            sum_source_sizes(entries@) <= u64::MAX,
        ensures
            r.wf(),
            r.source_dir@ == self.source_view(),
            files_match_entries(r.files@, entries@, self.patterns(), self.hashing()),
            forall|i: int|
                0 <= i < r.files@.len() ==> wf_rel_path(
                    (#[trigger] r.files@[i]).relative_path@,
                ),
    {
        let mut files: Vec<FileInfo> = Vec::new();
        let mut total_size: u64 = 0;
        let mut i: usize = 0;
        proof {
            assert(entries@.subrange(0, 0) =~= Seq::<SourceFile>::empty());
        }
        while i < entries.len()
            invariant
                i <= entries@.len(),
                unique_source_paths(entries@),
                sum_source_sizes(entries@) <= u64::MAX,
                files_match_entries(
                    files@,
                    entries@.subrange(0, i as int),
                    self.patterns(),
                    self.hashing(),
                ),
                total_size == sum_sizes(files@),
            decreases entries@.len() - i,
        {
            let e = &entries[i];
            proof {
                assert(entries@.subrange(0, i + 1 as int).drop_last() =~= entries@.subrange(
                    0,
                    i as int,
                ));
                assert(entries@.subrange(0, i + 1 as int).last() == entries@[i as int]);
            }
            let excluded = self.is_excluded(e.relative_path.as_str());
            if !excluded {
                let hash = if self.compute_hash {
                    Some(crate::crypto::blake3_hex(e.data.as_slice()))
                } else {
                    None
                };
                let info = FileInfo {
                    relative_path: e.relative_path.clone(),
                    size: e.size,
                    modified: e.modified,
                    hash,
                };
                proof {
                    lemma_scan_sum_le(
                        files@,
                        entries@.subrange(0, i as int),
                        self.patterns(),
                        self.hashing(),
                    );
                    lemma_source_prefix_sum_le(entries@, i + 1);
                    assert(sum_sizes(files@) + e.size <= sum_source_sizes(
                        entries@.subrange(0, i + 1 as int),
                    ));
                }
                let ghost prev_files = files@;
                total_size = total_size + e.size;
                files.push(info);
                proof {
                    assert(files@.drop_last() =~= prev_files);
                    assert(files@.last() == info);
                    assert(info_of_entry(info, entries@[i as int], self.hashing()));
                    assert(files_match_entries(
                        files@,
                        entries@.subrange(0, i + 1 as int),
                        self.patterns(),
                        self.hashing(),
                    ));
                    assert(sum_sizes(files@) == sum_sizes(prev_files) + info.size);
                }
            } else {
                proof {
                    assert(is_excluded_spec(
                        self.patterns(),
                        entries@.subrange(0, i + 1 as int).last().relative_path@,
                    ));
                    assert(files_match_entries(
                        files@,
                        entries@.subrange(0, i + 1 as int),
                        self.patterns(),
                        self.hashing(),
                    ));
                }
            }
            i += 1;
        }
        proof {
            assert(entries@.subrange(0, entries@.len() as int) =~= entries@);
            lemma_scan_paths(files@, entries@, self.patterns(), self.hashing());
            assert forall|i: int| 0 <= i < files@.len() implies wf_rel_path(
                (#[trigger] files@[i]).relative_path@,
            ) by {
                assert(has_path(files@, files@[i].relative_path@));
                assert(source_has_path(entries@, files@[i].relative_path@));
                let j = choose|j: int|
                    0 <= j < entries@.len() && entries@[j].relative_path@
                        == files@[i].relative_path@;
                assert(wf_rel_path(entries@[j].relative_path@));
            }
        }
        let total_files = files.len();
        ScanResult {
            source_dir: self.source.clone(),
            scanned_at: crate::clock::now_millis(),
            files,
            total_files,
            total_size,
        }
    }
}

} // verus!
