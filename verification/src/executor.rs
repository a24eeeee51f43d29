//! The backup run: scan, diff against the previous manifest, per-file
//! transform pipeline, manifest rewrite.

use vstd::prelude::*;
use crate::crypto::AES_GCM_MAX_PLAIN_LEN;
use crate::crypto::CryptoError;
use crate::crypto::Encryptor;
use crate::manifest::BackupManifest;
use crate::manifest::ManifestEntry;
use crate::manifest::entry_at;
use crate::manifest::entry_has_path;
use crate::manifest::lemma_entry_at_unique;
use crate::manifest::unique_entry_paths;
use crate::scanner::DiffResult;
use crate::scanner::DirectoryScanner;
use crate::scanner::FileInfo;
use crate::scanner::ScanError;
use crate::scanner::ScanResult;
use crate::scanner::SourceFile;
use crate::scanner::has_path;
use crate::scanner::views_of;
use crate::text::str_eq;
use vstd::string::StringSliceAdditionalSpecFns;
use vstd::string::StringExecFns;

verus! {

/// Policy and roots of one backup run.
#[derive(Debug)]
pub struct BackupConfig {
    /// Source directory, as the caller names it.
    pub source_dir: String,
    /// Destination directory, as the caller names it.
    pub dest_dir: String,
    /// Encrypt each blob.
    pub encrypt: bool,
    /// Compress each blob.
    pub compress: bool,
    /// Use the previous manifest to skip unchanged files.
    pub incremental: bool,
    /// Exclusion patterns handed to the scanner.
    pub exclude_patterns: Vec<String>,
}

impl Default for BackupConfig {
    /// Empty roots; compression and incremental runs on, encryption off; the
    /// usual build and metadata directories excluded.
    fn default() -> (r: Self)
        ensures
            r.source_dir@ == Seq::<char>::empty(),
            r.dest_dir@ == Seq::<char>::empty(),
            !r.encrypt,
            r.compress,
            r.incremental,
            crate::scanner::views_of(r.exclude_patterns@) =~= seq![
                ".git"@,
                "node_modules"@,
                "target"@,
            ],
    {
        let mut patterns: Vec<String> = Vec::new();
        patterns.push(".git".to_owned());
        patterns.push("node_modules".to_owned());
        patterns.push("target".to_owned());
        BackupConfig {
            source_dir: String::new(),
            dest_dir: String::new(),
            encrypt: false,
            compress: true,
            incremental: true,
            exclude_patterns: patterns,
        }
    }
}


/// A manifest entry and a fresh snapshot of the same path count as changed
/// when the snapshot carries a content hash that differs from the recorded
/// one; without a hash, when size or modification time differs.  The hash is
/// authoritative.
pub open spec fn manifest_changed(e: ManifestEntry, n: FileInfo) -> bool {
    if n.hash is Some {
        e.hash@ != (n.hash->0)@
    } else {
        e.original_size != n.size || e.modified != n.modified
    }
}

fn manifest_changed_exec(e: &ManifestEntry, n: &FileInfo) -> (r: bool)
    ensures
        r == manifest_changed(*e, *n),
{
    match &n.hash {
        Some(h) => !str_eq(e.hash.as_str(), h.as_str()),
        None => e.original_size != n.size || e.modified != n.modified,
    }
}

/// The scanned paths the manifest does not record, in scan order.
pub open spec fn m_added_of(old: Seq<ManifestEntry>, new: Seq<FileInfo>) -> Seq<Seq<char>>
    decreases new.len(),
{
    if new.len() == 0 {
        Seq::empty()
    } else {
        let rest = m_added_of(old, new.drop_last());
        if !entry_has_path(old, new.last().relative_path@) {
            rest.push(new.last().relative_path@)
        } else {
            rest
        }
    }
}

/// The recorded paths whose scanned content changed, in scan order.
pub open spec fn m_modified_of(old: Seq<ManifestEntry>, new: Seq<FileInfo>) -> Seq<Seq<char>>
    decreases new.len(),
{
    if new.len() == 0 {
        Seq::empty()
    } else {
        let rest = m_modified_of(old, new.drop_last());
        let k = new.last().relative_path@;
        if entry_has_path(old, k) && manifest_changed(entry_at(old, k), new.last()) {
            rest.push(k)
        } else {
            rest
        }
    }
}

/// The recorded paths whose scanned content is unchanged, in scan order.
pub open spec fn m_unchanged_of(old: Seq<ManifestEntry>, new: Seq<FileInfo>) -> Seq<Seq<char>>
    decreases new.len(),
{
    if new.len() == 0 {
        Seq::empty()
    } else {
        let rest = m_unchanged_of(old, new.drop_last());
        let k = new.last().relative_path@;
        if entry_has_path(old, k) && !manifest_changed(entry_at(old, k), new.last()) {
            rest.push(k)
        } else {
            rest
        }
    }
}

/// The recorded paths the scan no longer carries, in the manifest's order.
pub open spec fn m_deleted_of(old: Seq<ManifestEntry>, new: Seq<FileInfo>) -> Seq<Seq<char>>
    decreases old.len(),
{
    if old.len() == 0 {
        Seq::empty()
    } else {
        let rest = m_deleted_of(old.drop_last(), new);
        if !has_path(new, old.last().path@) {
            rest.push(old.last().path@)
        } else {
            rest
        }
    }
}

/// Classifies every path of a previous manifest and a fresh scan.
pub fn compute_diff_from_manifest(manifest: &BackupManifest, current: &ScanResult) -> (d:
    DiffResult)
    requires
        unique_entry_paths(manifest.files@),
    ensures
        views_of(d.added@) == m_added_of(manifest.files@, current.files@),
        views_of(d.modified@) == m_modified_of(manifest.files@, current.files@),
        views_of(d.unchanged@) == m_unchanged_of(manifest.files@, current.files@),
        views_of(d.deleted@) == m_deleted_of(manifest.files@, current.files@),
{
    let mut added: Vec<String> = Vec::new();
    let mut modified: Vec<String> = Vec::new();
    let mut unchanged: Vec<String> = Vec::new();
    let mut deleted: Vec<String> = Vec::new();
    let mut j: usize = 0;
    proof {
        assert(current.files@.subrange(0, 0) =~= Seq::<FileInfo>::empty());
    }
    while j < current.files.len()
        invariant
            j <= current.files@.len(),
            unique_entry_paths(manifest.files@),
            views_of(added@) == m_added_of(manifest.files@, current.files@.subrange(0, j as int)),
            views_of(modified@) == m_modified_of(
                manifest.files@,
                current.files@.subrange(0, j as int),
            ),
            views_of(unchanged@) == m_unchanged_of(
                manifest.files@,
                current.files@.subrange(0, j as int),
            ),
            deleted@.len() == 0,
        decreases current.files@.len() - j,
    {
        let info = &current.files[j];
        let ghost k = info.relative_path@;
        let ghost pre = current.files@.subrange(0, j as int);
        let ghost post = current.files@.subrange(0, j + 1 as int);
        proof {
            assert(post.drop_last() =~= pre);
            assert(post.last() == current.files@[j as int]);
        }
        match manifest.get(info.relative_path.as_str()) {
            Some(oe) => {
                proof {
                    let oi = choose|i: int|
                        0 <= i < manifest.files@.len() && manifest.files@[i] == *oe;
                    lemma_entry_at_unique(manifest.files@, oi);
                    assert(entry_at(manifest.files@, k) == *oe);
                }
                if manifest_changed_exec(oe, info) {
                    let ghost m0 = modified@;
                    modified.push(info.relative_path.clone());
                    proof {
                        assert(views_of(modified@) =~= views_of(m0).push(k));
                    }
                } else {
                    let ghost u0 = unchanged@;
                    unchanged.push(info.relative_path.clone());
                    proof {
                        assert(views_of(unchanged@) =~= views_of(u0).push(k));
                    }
                }
            },
            None => {
                let ghost a0 = added@;
                added.push(info.relative_path.clone());
                proof {
                    assert(views_of(added@) =~= views_of(a0).push(k));
                }
            },
        }
        j += 1;
    }
    proof {
        assert(current.files@.subrange(0, current.files@.len() as int) =~= current.files@);
        assert(manifest.files@.subrange(0, 0) =~= Seq::<ManifestEntry>::empty());
    }
    let mut t: usize = 0;
    while t < manifest.files.len()
        invariant
            t <= manifest.files@.len(),
            views_of(added@) == m_added_of(manifest.files@, current.files@),
            views_of(modified@) == m_modified_of(manifest.files@, current.files@),
            views_of(unchanged@) == m_unchanged_of(manifest.files@, current.files@),
            views_of(deleted@) == m_deleted_of(
                manifest.files@.subrange(0, t as int),
                current.files@,
            ),
        decreases manifest.files@.len() - t,
    {
        let entry = &manifest.files[t];
        let ghost k = entry.path@;
        let ghost pre = manifest.files@.subrange(0, t as int);
        let ghost post = manifest.files@.subrange(0, t + 1 as int);
        proof {
            assert(post.drop_last() =~= pre);
            assert(post.last() == manifest.files@[t as int]);
        }
        if !current.contains_path(entry.path.as_str()) {
            let ghost d0 = deleted@;
            deleted.push(entry.path.clone());
            proof {
                assert(views_of(deleted@) =~= views_of(d0).push(k));
            }
        }
        t += 1;
    }
    proof {
        assert(manifest.files@.subrange(0, manifest.files@.len() as int) =~= manifest.files@);
    }
    DiffResult { added, modified, deleted, unchanged }
}


proof fn lemma_entry_path_drop(s: Seq<ManifestEntry>, k: Seq<char>)
    requires
        s.len() > 0,
    ensures
        entry_has_path(s, k) <==> (entry_has_path(s.drop_last(), k) || k == s.last().path@),
{
    let pre = s.drop_last();
    assert(forall|i: int| 0 <= i < pre.len() ==> pre[i] == s[i]);
    if entry_has_path(pre, k) {
        let i = choose|i: int| 0 <= i < pre.len() && pre[i].path@ == k;
        assert(s[i].path@ == k);
    }
    if k == s.last().path@ {
        assert(s[s.len() - 1].path@ == k);
    }
    if entry_has_path(s, k) && k != s.last().path@ {
        let i = choose|i: int| 0 <= i < s.len() && s[i].path@ == k;
        assert(0 <= i < pre.len() && pre[i].path@ == k);
    }
}

/// What it means for a path to be listed as added against a manifest: in
/// the scan and not recorded.
pub proof fn lemma_m_added_of_members(old: Seq<ManifestEntry>, new: Seq<FileInfo>)
    ensures
        forall|k: Seq<char>|
            #[trigger] m_added_of(old, new).contains(k) <==> (has_path(new, k)
                && !entry_has_path(old, k)),
    decreases new.len(),
{
    if new.len() == 0 {
        assert forall|k: Seq<char>| !(#[trigger] has_path(new, k)) by {
            if has_path(new, k) {
                let i = choose|i: int| 0 <= i < new.len() && new[i].relative_path@ == k;
            }
        }
    } else {
        let pre = new.drop_last();
        let k0 = new.last().relative_path@;
        lemma_m_added_of_members(old, pre);
        assert forall|k: Seq<char>|
            #[trigger] m_added_of(old, new).contains(k) <==> (has_path(new, k)
                && !entry_has_path(old, k)) by {
            crate::scanner::lemma_has_path_drop(new, k);
            if !entry_has_path(old, k0) {
                crate::scanner::lemma_push_contains(m_added_of(old, pre), k0, k);
            }
        }
    }
}

/// What it means for a path to be listed as deleted against a manifest:
/// recorded and no longer in the scan.
pub proof fn lemma_m_deleted_of_members(old: Seq<ManifestEntry>, new: Seq<FileInfo>)
    ensures
        forall|k: Seq<char>|
            #[trigger] m_deleted_of(old, new).contains(k) <==> (entry_has_path(old, k)
                && !has_path(new, k)),
    decreases old.len(),
{
    if old.len() == 0 {
        assert forall|k: Seq<char>| !(#[trigger] entry_has_path(old, k)) by {
            if entry_has_path(old, k) {
                let i = choose|i: int| 0 <= i < old.len() && old[i].path@ == k;
            }
        }
    } else {
        let pre = old.drop_last();
        let k0 = old.last().path@;
        lemma_m_deleted_of_members(pre, new);
        assert forall|k: Seq<char>|
            #[trigger] m_deleted_of(old, new).contains(k) <==> (entry_has_path(old, k)
                && !has_path(new, k)) by {
            lemma_entry_path_drop(old, k);
            if !has_path(new, k0) {
                crate::scanner::lemma_push_contains(m_deleted_of(pre, new), k0, k);
            }
        }
    }
}

/// What it means for a path to be listed as modified against a manifest:
/// recorded, in the scan, and changed.
pub proof fn lemma_m_modified_of_members(old: Seq<ManifestEntry>, new: Seq<FileInfo>)
    requires
        crate::scanner::unique_paths(new),
    ensures
        forall|k: Seq<char>|
            #[trigger] m_modified_of(old, new).contains(k) <==> (has_path(new, k)
                && entry_has_path(old, k) && manifest_changed(
                entry_at(old, k),
                crate::scanner::info_at(new, k),
            )),
    decreases new.len(),
{
    if new.len() == 0 {
        assert forall|k: Seq<char>| !(#[trigger] has_path(new, k)) by {
            if has_path(new, k) {
                let i = choose|i: int| 0 <= i < new.len() && new[i].relative_path@ == k;
            }
        }
    } else {
        let pre = new.drop_last();
        let k0 = new.last().relative_path@;
        assert(forall|i: int| 0 <= i < pre.len() ==> pre[i] == new[i]);
        assert(crate::scanner::unique_paths(pre));
        lemma_m_modified_of_members(old, pre);
        crate::scanner::lemma_info_at_unique(new, new.len() - 1);
        assert forall|k: Seq<char>|
            #[trigger] m_modified_of(old, new).contains(k) <==> (has_path(new, k)
                && entry_has_path(old, k) && manifest_changed(
                entry_at(old, k),
                crate::scanner::info_at(new, k),
            )) by {
            crate::scanner::lemma_has_path_drop(new, k);
            if entry_has_path(old, k0) && manifest_changed(entry_at(old, k0), new.last()) {
                crate::scanner::lemma_push_contains(m_modified_of(old, pre), k0, k);
            }
            if k == k0 {
                assert(crate::scanner::info_at(new, k0) == new.last());
            } else if has_path(pre, k) {
                let i = choose|i: int| 0 <= i < pre.len() && pre[i].relative_path@ == k;
                crate::scanner::lemma_info_at_unique(new, i);
                crate::scanner::lemma_info_at_unique(pre, i);
            }
        }
    }
}

/// What it means for a path to be listed as unchanged against a manifest:
/// recorded, in the scan, and not changed.
pub proof fn lemma_m_unchanged_of_members(old: Seq<ManifestEntry>, new: Seq<FileInfo>)
    requires
        crate::scanner::unique_paths(new),
    ensures
        forall|k: Seq<char>|
            #[trigger] m_unchanged_of(old, new).contains(k) <==> (has_path(new, k)
                && entry_has_path(old, k) && !manifest_changed(
                entry_at(old, k),
                crate::scanner::info_at(new, k),
            )),
    decreases new.len(),
{
    if new.len() == 0 {
        assert forall|k: Seq<char>| !(#[trigger] has_path(new, k)) by {
            if has_path(new, k) {
                let i = choose|i: int| 0 <= i < new.len() && new[i].relative_path@ == k;
            }
        }
    } else {
        let pre = new.drop_last();
        let k0 = new.last().relative_path@;
        assert(forall|i: int| 0 <= i < pre.len() ==> pre[i] == new[i]);
        assert(crate::scanner::unique_paths(pre));
        lemma_m_unchanged_of_members(old, pre);
        crate::scanner::lemma_info_at_unique(new, new.len() - 1);
        assert forall|k: Seq<char>|
            #[trigger] m_unchanged_of(old, new).contains(k) <==> (has_path(new, k)
                && entry_has_path(old, k) && !manifest_changed(
                entry_at(old, k),
                crate::scanner::info_at(new, k),
            )) by {
            crate::scanner::lemma_has_path_drop(new, k);
            if entry_has_path(old, k0) && !manifest_changed(entry_at(old, k0), new.last()) {
                crate::scanner::lemma_push_contains(m_unchanged_of(old, pre), k0, k);
            }
            if k == k0 {
                assert(crate::scanner::info_at(new, k0) == new.last());
            } else if has_path(pre, k) {
                let i = choose|i: int| 0 <= i < pre.len() && pre[i].relative_path@ == k;
                crate::scanner::lemma_info_at_unique(new, i);
                crate::scanner::lemma_info_at_unique(pre, i);
            }
        }
    }
}

/// Partition law for the differ over a previous manifest and a fresh scan:
/// the four lists are pairwise disjoint and together hold exactly the union
/// of the recorded paths and the scanned paths.
pub proof fn lemma_manifest_diff_partition(old: Seq<ManifestEntry>, new: Seq<FileInfo>)
    requires
        crate::scanner::unique_paths(new),
    ensures
        forall|k: Seq<char>|
            #[trigger] m_added_of(old, new).contains(k) ==> !m_modified_of(old, new).contains(k)
                && !m_unchanged_of(old, new).contains(k) && !m_deleted_of(old, new).contains(k),
        forall|k: Seq<char>|
            #[trigger] m_modified_of(old, new).contains(k) ==> !m_unchanged_of(
                old,
                new,
            ).contains(k) && !m_deleted_of(old, new).contains(k),
        forall|k: Seq<char>|
            #[trigger] m_unchanged_of(old, new).contains(k) ==> !m_deleted_of(
                old,
                new,
            ).contains(k),
        forall|k: Seq<char>|
            (m_added_of(old, new).contains(k) || m_modified_of(old, new).contains(k)
                || m_unchanged_of(old, new).contains(k) || m_deleted_of(old, new).contains(k))
                <==> (#[trigger] entry_has_path(old, k) || has_path(new, k)),
{
    lemma_m_added_of_members(old, new);
    lemma_m_modified_of_members(old, new);
    lemma_m_unchanged_of_members(old, new);
    lemma_m_deleted_of_members(old, new);
}

proof fn lemma_incr_new_entries(m_files: Seq<ManifestEntry>, new: Seq<FileInfo>)
    requires
        unique_entry_paths(m_files),
        m_files.len() >= new.len(),
        forall|i: int|
            0 <= i < new.len() ==> (#[trigger] m_files[i]).path@ == new[i].relative_path@,
        forall|i: int|
            0 <= i < new.len() ==> (#[trigger] new[i]).hash is Some && m_files[i].hash@ == (
            new[i].hash->0)@,
    ensures
        m_added_of(m_files, new).len() == 0,
        m_modified_of(m_files, new).len() == 0,
        m_unchanged_of(m_files, new).len() == new.len(),
    decreases new.len(),
{
    if new.len() > 0 {
        let pre = new.drop_last();
        assert(forall|i: int| 0 <= i < pre.len() ==> pre[i] == new[i]);
        lemma_incr_new_entries(m_files, pre);
        let last_idx = new.len() - 1;
        let k = new.last().relative_path@;
        assert(m_files[last_idx].path@ == k);
        assert(entry_has_path(m_files, k));
        lemma_entry_at_unique(m_files, last_idx);
        assert(entry_at(m_files, k) == m_files[last_idx]);
        assert(!manifest_changed(m_files[last_idx], new.last()));
    }
}

proof fn lemma_incr_old_entries(m_files: Seq<ManifestEntry>, new: Seq<FileInfo>)
    requires
        forall|t: int| 0 <= t < m_files.len() ==> has_path(new, (#[trigger] m_files[t]).path@),
    ensures
        m_deleted_of(m_files, new).len() == 0,
    decreases m_files.len(),
{
    if m_files.len() > 0 {
        let pre = m_files.drop_last();
        assert(forall|t: int| 0 <= t < pre.len() ==> pre[t] == m_files[t]);
        lemma_incr_old_entries(pre, new);
        assert(has_path(new, m_files[m_files.len() - 1].path@));
    }
}

/// Idempotent incremental law: diffing a manifest against the very scan it
/// records — hashing enabled, every path and hash equal pointwise — yields
/// no added, modified or deleted path, and every path unchanged.  A second
/// backup run over an unchanged source therefore backs up nothing and skips
/// every file.
pub proof fn lemma_incremental_idempotent(m: BackupManifest, scan: ScanResult)
    requires
        unique_entry_paths(m.files@),
        m.files@.len() == scan.files@.len(),
        forall|i: int|
            0 <= i < scan.files@.len() ==> (#[trigger] m.files@[i]).path@
                == scan.files@[i].relative_path@,
        forall|i: int|
            0 <= i < scan.files@.len() ==> (#[trigger] scan.files@[i]).hash is Some
                && m.files@[i].hash@ == (scan.files@[i].hash->0)@,
    ensures
        m_added_of(m.files@, scan.files@).len() == 0,
        m_modified_of(m.files@, scan.files@).len() == 0,
        m_deleted_of(m.files@, scan.files@).len() == 0,
        m_unchanged_of(m.files@, scan.files@).len() == scan.files@.len(),
{
    lemma_incr_new_entries(m.files@, scan.files@);
    assert forall|t: int|
        0 <= t < m.files@.len() implies has_path(scan.files@, (#[trigger] m.files@[t]).path@) by {
        assert(scan.files@[t].relative_path@ == m.files@[t].path@);
    }
    lemma_incr_old_entries(m.files@, scan.files@);
}


/// Error that ends a backup run or one of its files.
#[derive(Debug)]
pub enum BackupError {
    Io(String),
    Scan(ScanError),
    Crypto(CryptoError),
    Serialize(String),
    Compression,
    DestinationNotFound(String),
}

impl BackupError {
    /// A short description, used when a per-file failure is recorded.
    pub fn message(&self) -> (r: String)
        ensures
            self matches BackupError::Io(s) ==> r@ == s@,
            self is Scan ==> r@ == "scan error"@,
            self is Crypto ==> r@ == "encryption error"@,
            self matches BackupError::Serialize(s) ==> r@ == s@,
            self is Compression ==> r@ == "compression error"@,
            self matches BackupError::DestinationNotFound(p) ==> r@ == p@,
    {
        match self {
            BackupError::Io(s) => s.clone(),
            BackupError::Scan(_) => "scan error".to_owned(),
            BackupError::Crypto(_) => "encryption error".to_owned(),
            BackupError::Serialize(s) => s.clone(),
            BackupError::Compression => "compression error".to_owned(),
            BackupError::DestinationNotFound(p) => p.clone(),
        }
    }
}

/// Phase of a backup run.
#[derive(Debug, Clone, Copy, PartialEq, Eq, Structural)]
pub enum BackupStatus {
    Idle,
    Scanning,
    ComputingDiff,
    Backing,
    Completed,
    Failed,
}

/// One progress snapshot, emitted at every phase change and before every
/// file.
#[derive(Debug)]
pub struct BackupProgress {
    pub processed_files: usize,
    pub total_files: usize,
    pub processed_bytes: u64,
    pub total_bytes: u64,
    pub current_file: Option<String>,
    pub status: BackupStatus,
    pub error: Option<String>,
}

/// What one backup run did.
#[derive(Debug)]
pub struct BackupResult {
    /// When the run started, milliseconds since the Unix epoch, UTC.
    pub started_at: i64,
    /// When the run finished, milliseconds since the Unix epoch, UTC.
    pub finished_at: i64,
    /// Files whose blob was produced.
    pub backed_up_files: usize,
    /// Source bytes of the files backed up.
    pub backed_up_bytes: u64,
    /// Files skipped as unchanged by an incremental run.
    pub skipped_files: usize,
    /// One `"path: reason"` line per file that failed; failures never abort
    /// the run.
    pub failed_files: Vec<String>,
    /// True exactly when no file failed.
    pub success: bool,
}

/// One transformed file bound for the destination tree: a path relative to
/// the destination root and the bytes to store there.
#[derive(Debug)]
pub struct BackupBlob {
    pub path: String,
    pub data: Vec<u8>,
}

/// Everything a backup run produces: the snapshot it took, the manifest to
/// persist, the blobs to write, the run summary and the progress trace.
#[derive(Debug)]
pub struct BackupOutcome {
    pub scan: ScanResult,
    pub manifest: BackupManifest,
    pub blobs: Vec<BackupBlob>,
    pub result: BackupResult,
    pub progress: Vec<BackupProgress>,
}

/// The destination-relative path of a file's blob: under `data/`, with
/// `.enc` appended when the blob is encrypted.
pub open spec fn blob_path_of(enc: bool, rel: Seq<char>) -> Seq<char> {
    if enc {
        "data/"@ + rel + ".enc"@
    } else {
        "data/"@ + rel
    }
}

/// The relative paths of the scanned files, in scan order.
pub open spec fn scan_paths_of(files: Seq<FileInfo>) -> Seq<Seq<char>> {
    files.map_values(|f: FileInfo| f.relative_path@)
}

/// The paths one run backs up: the added and modified paths against the
/// previous manifest when running incrementally with one, every scanned
/// path otherwise.
pub open spec fn work_paths_of(
    previous: Option<&BackupManifest>,
    scan_files: Seq<FileInfo>,
    incremental: bool,
) -> Seq<Seq<char>> {
    if incremental && previous is Some {
        m_added_of((previous->0).files@, scan_files) + m_modified_of(
            (previous->0).files@,
            scan_files,
        )
    } else {
        scan_paths_of(scan_files)
    }
}

/// The blob was produced from some source entry by the run's transform.
pub open spec fn blob_matches_source(
    blob: BackupBlob,
    entries: Seq<SourceFile>,
    pass: Option<Seq<u8>>,
    enc: bool,
    comp: bool,
) -> bool {
    exists|j: int|
        #![auto]
        0 <= j < entries.len() && blob.path@ == blob_path_of(enc, entries[j].relative_path@)
            && crate::codec::transform_ok(pass, enc, comp, entries[j].data@, blob.data@)
}

/// A recorded per-file failure line: a scanned path, a separator, and the
/// reason.  Only the AEAD seal can decline a file, so the reason is fixed.
pub open spec fn failure_line_ok(line: Seq<char>, scan_files: Seq<FileInfo>) -> bool {
    exists|k: Seq<char>|
        #![auto]
        has_path(scan_files, k) && line == k + ": "@ + "encryption error"@
}

/// Processed-file counters never decrease along the trace.
pub open spec fn progress_monotone(s: Seq<BackupProgress>) -> bool {
    forall|i: int, j: int|
        0 <= i < j < s.len() ==> s[i].processed_files <= s[j].processed_files
}

proof fn lemma_progress_push(s: Seq<BackupProgress>, p: BackupProgress)
    requires
        progress_monotone(s),
        s.len() > 0 ==> s.last().processed_files <= p.processed_files,
    ensures
        progress_monotone(s.push(p)),
{
    let t = s.push(p);
    assert forall|i: int, j: int|
        0 <= i < j < t.len() implies t[i].processed_files <= t[j].processed_files by {
        if j < s.len() {
            assert(s[i].processed_files <= s[j].processed_files);
        } else {
            if i < s.len() - 1 {
                assert(s[i].processed_files <= s[s.len() - 1].processed_files);
            }
        }
    }
}

/// The manifest a first run writes, related to its scan and policy.
pub open spec fn first_manifest_ok(m: BackupManifest, scan: ScanResult, config: BackupConfig) -> bool {
    &&& m.wf()
    &&& m.version@ == "1.0.0"@
    &&& m.source_dir@ == scan.source_dir@
    &&& m.config.encrypt == config.encrypt
    &&& m.config.compress == config.compress
    &&& m.config.incremental == config.incremental
    &&& m.files@.len() == scan.files@.len()
    &&& forall|i: int|
        0 <= i < scan.files@.len() ==> crate::manifest::entry_of_info(
            #[trigger] m.files@[i],
            scan.files@[i],
            config.encrypt,
            config.compress,
        )
    &&& m.stats.total_files == scan.total_files
    &&& m.stats.total_original_size == scan.total_size
    &&& m.stats.total_backed_up_size == 0
    &&& m.stats.backup_count == 1
}

/// The manifest a later run writes, related to the previous manifest and the
/// fresh scan.
pub open spec fn updated_manifest_ok(
    prev: BackupManifest,
    m: BackupManifest,
    scan: ScanResult,
) -> bool {
    &&& m.wf()
    &&& m.version@ == prev.version@
    &&& m.created_at == prev.created_at
    &&& m.source_dir@ == prev.source_dir@
    &&& m.config == prev.config
    &&& m.files@.len() == scan.files@.len()
    &&& forall|i: int|
        0 <= i < scan.files@.len() ==> crate::manifest::updated_entry_ok(
            prev.files@,
            prev.config,
            scan.files@[i],
            #[trigger] m.files@[i],
        )
    &&& m.stats.total_files == scan.total_files
    &&& m.stats.total_original_size == scan.total_size
    &&& m.stats.total_backed_up_size == prev.stats.total_backed_up_size
    &&& m.stats.backup_count == prev.stats.backup_count + 1
}

/// Collects the relative paths of a snapshot's files.
fn collect_paths(scan: &ScanResult) -> (r: Vec<String>)
    ensures
        views_of(r@) == scan_paths_of(scan.files@),
{
    let mut out: Vec<String> = Vec::new();
    let mut i: usize = 0;
    while i < scan.files.len()
        invariant
            i <= scan.files@.len(),
            out@.len() == i,
            forall|m: int| 0 <= m < i ==> (#[trigger] out@[m])@ == scan.files@[m].relative_path@,
        decreases scan.files@.len() - i,
    {
        out.push(scan.files[i].relative_path.clone());
        i += 1;
    }
    proof {
        assert(views_of(out@) =~= scan_paths_of(scan.files@));
    }
    out
}

/// Looks a source entry up by its relative path.
fn source_find<'a>(entries: &'a Vec<SourceFile>, path: &str) -> (r: Option<&'a SourceFile>)
    ensures
        r is Some ==> (r->0).relative_path@ == path@,
        r is Some ==> exists|i: int| 0 <= i < entries@.len() && entries@[i] == *(r->0),
        r is None ==> !crate::scanner::source_has_path(entries@, path@),
{
    let mut i: usize = 0;
    while i < entries.len()
        invariant
            i <= entries@.len(),
            forall|j: int| 0 <= j < i ==> (#[trigger] entries@[j]).relative_path@ != path@,
        decreases entries@.len() - i,
    {
        if str_eq(entries[i].relative_path.as_str(), path) {
            return Some(&entries[i]);
        }
        i += 1;
    }
    proof {
        assert(!crate::scanner::source_has_path(entries@, path@)) by {
            if crate::scanner::source_has_path(entries@, path@) {
                let j = choose|j: int|
                    0 <= j < entries@.len() && entries@[j].relative_path@ == path@;
            }
        }
    }
    None
}

/// Drives one backup run over an in-memory snapshot of the source tree.
pub struct BackupExecutor {
    config: BackupConfig,
    encryptor: Option<Encryptor>,
}

impl BackupExecutor {
    /// The run's configuration.
    pub closed spec fn cfg(&self) -> BackupConfig {
        self.config
    }

    /// The passphrase bytes, when an encryption engine is present.
    pub closed spec fn pass(&self) -> Option<Seq<u8>> {
        match self.encryptor {
            Some(e) => Some(e@),
            None => None,
        }
    }

    /// Blobs are encrypted: encryption is asked for and an engine is
    /// present.
    pub open spec fn encrypting(&self) -> bool {
        self.cfg().encrypt && self.pass() is Some
    }

    /// The exclusion patterns the run scans with: the scanner's defaults
    /// followed by the configured ones.
    pub open spec fn effective_patterns(&self) -> Seq<Seq<char>> {
        seq![".git"@, "node_modules"@, "target"@, ".DS_Store"@, "Thumbs.db"@] + views_of(
            self.cfg().exclude_patterns@,
        )
    }

    /// An executor for this configuration, without an encryption engine.
    pub fn new(config: BackupConfig) -> (r: Self)
        ensures
            r.cfg() == config,
            r.pass() is None,
    {
        BackupExecutor { config, encryptor: None }
    }

    /// Installs an encryption engine for the passphrase and turns
    /// encryption on.
    pub fn with_encryption(self, password: &str) -> (r: Self)
        ensures
            r.cfg().source_dir == self.cfg().source_dir,
            r.cfg().dest_dir == self.cfg().dest_dir,
            r.cfg().encrypt,
            r.cfg().compress == self.cfg().compress,
            r.cfg().incremental == self.cfg().incremental,
            r.cfg().exclude_patterns@ == self.cfg().exclude_patterns@,
            r.pass() == Some(password.spec_bytes()),
    {
        let mut config = self.config;
        config.encrypt = true;
        BackupExecutor { config, encryptor: Some(Encryptor::new(password)) }
    }

    /// Appends one progress snapshot to the run's trace.
    fn report_progress(&self, trace: &mut Vec<BackupProgress>, p: BackupProgress)
        ensures
            final(trace)@ == old(trace)@.push(p),
    {
        trace.push(p);
    }

    /// Transforms one source file into its destination blob: compress when
    /// asked, encrypt when an engine is present, and name the blob under
    /// `data/` with `.enc` appended when encrypted.
    fn backup_file(&self, e: &SourceFile) -> (r: Result<BackupBlob, BackupError>)
        ensures
            r is Ok ==> (r->Ok_0).path@ == blob_path_of(self.encrypting(), e.relative_path@),
            r is Ok ==> crate::codec::transform_ok(
                self.pass(),
                self.encrypting(),
                self.cfg().compress,
                e.data@,
                (r->Ok_0).data@,
            ),
            r is Err ==> r->Err_0 is Crypto,
            !self.encrypting() ==> r is Ok,
            self.encrypting() && !self.cfg().compress && e.data@.len()
                <= AES_GCM_MAX_PLAIN_LEN ==> r is Ok,
    {
        let ghost source = e.data@;
        let mid: Vec<u8>;
        if self.config.compress {
            match crate::codec::zstd_compress(e.data.as_slice(), crate::codec::ZSTD_LEVEL) {
                Some(framed) => {
                    mid = framed;
                },
                None => {
                    return Err(BackupError::Compression);
                },
            }
        } else {
            mid = vstd::slice::slice_to_vec(e.data.as_slice());
        }
        let mut path = "data/".to_owned();
        path.append(e.relative_path.as_str());
        if self.config.encrypt {
            if let Some(enc) = &self.encryptor {
                match enc.encrypt(mid.as_slice()) {
                    Ok(sealed) => {
                        path.append(".enc");
                        proof {
                            assert(crate::crypto::decrypt_spec(enc@, sealed@) == Some(mid@));
                            assert((if self.cfg().compress {
                                crate::codec::zstd_unframe(mid@) == Some(source)
                            } else {
                                mid@ == source
                            }));
                            assert(crate::codec::transform_ok(
                                self.pass(),
                                true,
                                self.cfg().compress,
                                source,
                                sealed@,
                            ));
                        }
                        return Ok(BackupBlob { path, data: sealed });
                    },
                    Err(ce) => {
                        return Err(BackupError::Crypto(ce));
                    },
                }
            }
        }
        proof {
            assert((if self.cfg().compress {
                crate::codec::zstd_unframe(mid@) == Some(source)
            } else {
                mid@ == source
            }));
            assert(crate::codec::transform_ok(
                self.pass(),
                false,
                self.cfg().compress,
                source,
                mid@,
            ));
            assert(!self.encrypting());
        }
        Ok(BackupBlob { path, data: mid })
    }

    /// Runs a backup over the source entries the caller walked and read,
    /// against the previous manifest when one exists.  The scan applies the
    /// run's exclusions with hashing on; an incremental run with a previous
    /// manifest backs up exactly the added and modified paths and skips the
    /// unchanged ones, any other run backs up every scanned path; every blob
    /// produced is the transform of its source file; a run that does not
    /// encrypt backs up every work path, and per-file failures — possible
    /// only where the AEAD seal declines — are recorded as
    /// `"path: reason"` lines and never abort the run; the manifest is
    /// rebuilt from the fresh scan, continuing the previous manifest's
    /// history when one exists; the progress trace is one scanning event,
    /// one diffing event, one backing event per work path naming it, and a
    /// terminal event, monotone throughout.
    #[verifier::rlimit(100)]
    pub fn execute(&self, entries: &Vec<SourceFile>, previous: Option<&BackupManifest>) -> (r:
        BackupOutcome)
        requires
            crate::scanner::unique_source_paths(entries@),
            crate::scanner::wf_source_paths(entries@),
            crate::scanner::sum_source_sizes(entries@) <= u64::MAX,
            previous is Some ==> (previous->0).wf() && (previous->0).stats.backup_count
                < u32::MAX,
        ensures
            r.scan.wf(),
            r.scan.source_dir@ == self.cfg().source_dir@,
            crate::scanner::files_match_entries(
                r.scan.files@,
                entries@,
                self.effective_patterns(),
                true,
            ),
            forall|i: int|
                0 <= i < r.scan.files@.len() ==> crate::text::wf_rel_path(
                    (#[trigger] r.scan.files@[i]).relative_path@,
                ),
            self.cfg().incremental && previous is Some ==> r.result.skipped_files
                == m_unchanged_of((previous->0).files@, r.scan.files@).len(),
            !(self.cfg().incremental && previous is Some) ==> r.result.skipped_files == 0,
            r.result.backed_up_files + r.result.failed_files@.len() == work_paths_of(
                previous,
                r.scan.files@,
                self.cfg().incremental,
            ).len(),
            r.blobs@.len() == r.result.backed_up_files,
            r.result.success == (r.result.failed_files@.len() == 0),
            !self.encrypting() ==> r.result.failed_files@.len() == 0,
            forall|b: int|
                0 <= b < r.blobs@.len() ==> blob_matches_source(
                    #[trigger] r.blobs@[b],
                    entries@,
                    self.pass(),
                    self.encrypting(),
                    self.cfg().compress,
                ),
            forall|f: int|
                0 <= f < r.result.failed_files@.len() ==> failure_line_ok(
                    (#[trigger] r.result.failed_files@[f])@,
                    r.scan.files@,
                ),
            previous is None ==> first_manifest_ok(r.manifest, r.scan, self.cfg()),
            previous is Some ==> updated_manifest_ok(*(previous->0), r.manifest, r.scan),
            progress_monotone(r.progress@),
            ({
                let wp = work_paths_of(previous, r.scan.files@, self.cfg().incremental);
                &&& r.progress@.len() == wp.len() + 3
                &&& r.progress@[0].processed_files == 0
                &&& r.progress@[1].status is ComputingDiff
                &&& r.progress@[1].processed_files == 0
                &&& forall|i: int|
                    0 <= i < wp.len() ==> {
                        let p = #[trigger] r.progress@[2 + i];
                        p.status is Backing && p.processed_files == i && p.total_files
                            == wp.len() && p.current_file is Some && (p.current_file->0)@
                            == wp[i]
                    }
                &&& r.progress@.last().processed_files == wp.len()
            }),
            r.progress@[0].status is Scanning,
            r.progress@.last().status == (if r.result.success {
                BackupStatus::Completed
            } else {
                BackupStatus::Failed
            }),
    {
        let started_at = crate::clock::now_millis();
        let mut progress: Vec<BackupProgress> = Vec::new();
        self.report_progress(
            &mut progress,
            BackupProgress {
                processed_files: 0,
                total_files: 0,
                processed_bytes: 0,
                total_bytes: 0,
                current_file: None,
                status: BackupStatus::Scanning,
                error: None,
            },
        );

        // take the snapshot, with the configured exclusions and hashing on
        let mut scanner = DirectoryScanner::new(self.config.source_dir.as_str());
        let mut pi: usize = 0;
        proof {
            assert(views_of(self.cfg().exclude_patterns@.subrange(0, 0)) =~= Seq::<
                Seq<char>,
            >::empty());
            assert(scanner.patterns() =~= seq![
                ".git"@,
                "node_modules"@,
                "target"@,
                ".DS_Store"@,
                "Thumbs.db"@,
            ] + views_of(self.cfg().exclude_patterns@.subrange(0, 0)));
        }
        while pi < self.config.exclude_patterns.len()
            invariant
                pi <= self.cfg().exclude_patterns@.len(),
                scanner.source_view() == self.cfg().source_dir@,
                !scanner.hashing(),
                scanner.patterns() == seq![
                    ".git"@,
                    "node_modules"@,
                    "target"@,
                    ".DS_Store"@,
                    "Thumbs.db"@,
                ] + views_of(self.cfg().exclude_patterns@.subrange(0, pi as int)),
            decreases self.cfg().exclude_patterns@.len() - pi,
        {
            scanner = scanner.exclude(self.config.exclude_patterns[pi].as_str());
            proof {
                assert(views_of(self.cfg().exclude_patterns@.subrange(0, pi + 1 as int)) =~=
                    views_of(self.cfg().exclude_patterns@.subrange(0, pi as int)).push(
                    self.cfg().exclude_patterns@[pi as int]@,
                ));
                assert(scanner.patterns() =~= seq![
                    ".git"@,
                    "node_modules"@,
                    "target"@,
                    ".DS_Store"@,
                    "Thumbs.db"@,
                ] + views_of(self.cfg().exclude_patterns@.subrange(0, pi + 1 as int)));
            }
            pi += 1;
        }
        proof {
            assert(self.cfg().exclude_patterns@.subrange(
                0,
                self.cfg().exclude_patterns@.len() as int,
            ) =~= self.cfg().exclude_patterns@);
        }
        let scanner = scanner.with_hash();
        let scan = scanner.scan(entries);

        self.report_progress(
            &mut progress,
            BackupProgress {
                processed_files: 0,
                total_files: scan.total_files,
                processed_bytes: 0,
                total_bytes: scan.total_size,
                current_file: None,
                status: BackupStatus::ComputingDiff,
                error: None,
            },
        );
        proof {
            lemma_progress_push(progress@.drop_last(), progress@.last());
        }

        // decide the work set
        let mut work: Vec<String>;
        let skipped: usize;
        if self.config.incremental {
            match previous {
                Some(m) => {
                    let diff = compute_diff_from_manifest(m, &scan);
                    skipped = diff.unchanged.len();
                    let mut w = diff.added;
                    let mut mo = diff.modified;
                    let ghost wv = views_of(w@);
                    let ghost mv = views_of(mo@);
                    w.append(&mut mo);
                    proof {
                        assert(views_of(w@) =~= wv + mv);
                    }
                    work = w;
                },
                None => {
                    work = collect_paths(&scan);
                    skipped = 0;
                },
            }
        } else {
            work = collect_paths(&scan);
            skipped = 0;
        }
        let ghost wp = work_paths_of(previous, scan.files@, self.cfg().incremental);
        proof {
            if self.cfg().incremental && previous is Some {
                assert(views_of(work@) == m_added_of((previous->0).files@, scan.files@)
                    + m_modified_of((previous->0).files@, scan.files@));
            } else {
                assert(views_of(work@) == scan_paths_of(scan.files@));
            }
            assert(views_of(work@) == wp);
            assert(work@.len() == wp.len());
            // every path of the work set names a scanned file, and hence a
            // source entry
            crate::scanner::lemma_scan_paths(
                scan.files@,
                entries@,
                self.effective_patterns(),
                true,
            );
            if self.cfg().incremental && previous is Some {
                lemma_m_added_of_members((previous->0).files@, scan.files@);
                lemma_m_modified_of_members((previous->0).files@, scan.files@);
            }
            assert forall|i: int| 0 <= i < wp.len() implies has_path(
                scan.files@,
                #[trigger] wp[i],
            ) by {
                if self.cfg().incremental && previous is Some {
                    let a = m_added_of((previous->0).files@, scan.files@);
                    let m = m_modified_of((previous->0).files@, scan.files@);
                    if i < a.len() {
                        assert(a[i] == wp[i]);
                        assert(a.contains(wp[i]));
                    } else {
                        assert(m[i - a.len()] == wp[i]);
                        assert(m.contains(wp[i]));
                    }
                } else {
                    assert(wp[i] == scan.files@[i].relative_path@);
                }
            }
            assert forall|i: int| 0 <= i < wp.len() implies crate::scanner::source_has_path(
                entries@,
                #[trigger] wp[i],
            ) by {
                assert(has_path(scan.files@, wp[i]));
            }
        }

        // per-file pipeline
        let mut blobs: Vec<BackupBlob> = Vec::new();
        let mut failed_files: Vec<String> = Vec::new();
        let mut backed_up_files: usize = 0;
        let mut backed_up_bytes: u64 = 0;
        let mut idx: usize = 0;
        while idx < work.len()
            invariant
                idx <= work@.len(),
                wp == views_of(work@),
                wp.len() == work@.len(),
                forall|i: int|
                    0 <= i < wp.len() ==> has_path(scan.files@, #[trigger] wp[i]),
                forall|i: int|
                    0 <= i < wp.len() ==> crate::scanner::source_has_path(
                        entries@,
                        #[trigger] wp[i],
                    ),
                backed_up_files == blobs@.len(),
                backed_up_files + failed_files@.len() == idx,
                !self.encrypting() ==> failed_files@.len() == 0,
                forall|b: int|
                    0 <= b < blobs@.len() ==> blob_matches_source(
                        #[trigger] blobs@[b],
                        entries@,
                        self.pass(),
                        self.encrypting(),
                        self.cfg().compress,
                    ),
                forall|f: int|
                    0 <= f < failed_files@.len() ==> failure_line_ok(
                        (#[trigger] failed_files@[f])@,
                        scan.files@,
                    ),
                progress_monotone(progress@),
                progress@.len() == idx + 2,
                progress@[0].status is Scanning,
                progress@[0].processed_files == 0,
                progress@[1].status is ComputingDiff,
                progress@[1].processed_files == 0,
                forall|i: int|
                    0 <= i < idx ==> {
                        let p = #[trigger] progress@[2 + i];
                        p.status is Backing && p.processed_files == i && p.total_files
                            == wp.len() && p.current_file is Some && (p.current_file->0)@
                            == wp[i]
                    },
                progress@.last().processed_files <= idx,
            decreases work@.len() - idx,
        {
            let path = &work[idx];
            proof {
                assert(path@ == wp[idx as int]);
            }
            let ghost pre_progress = progress@;
            self.report_progress(
                &mut progress,
                BackupProgress {
                    processed_files: idx,
                    total_files: work.len(),
                    processed_bytes: backed_up_bytes,
                    total_bytes: scan.total_size,
                    current_file: Some(path.clone()),
                    status: BackupStatus::Backing,
                    error: None,
                },
            );
            proof {
                lemma_progress_push(pre_progress, progress@.last());
                assert(forall|i: int|
                    0 <= i < pre_progress.len() ==> progress@[i] == pre_progress[i]);
                assert(progress@[2 + idx as int].current_file is Some);
            }
            match source_find(entries, path.as_str()) {
                Some(e) => {
                    match self.backup_file(e) {
                        Ok(blob) => {
                            proof {
                                let j = choose|j: int|
                                    0 <= j < entries@.len() && entries@[j] == *e;
                                assert(blob_matches_source(
                                    blob,
                                    entries@,
                                    self.pass(),
                                    self.encrypting(),
                                    self.cfg().compress,
                                ));
                            }
                            let size = e.data.len() as u64;
                            blobs.push(blob);
                            backed_up_files = backed_up_files + 1;
                            backed_up_bytes = if backed_up_bytes <= u64::MAX - size {
                                backed_up_bytes + size
                            } else {
                                u64::MAX
                            };
                        },
                        Err(err) => {
                            proof {
                                // only the AEAD can decline, so this run
                                // encrypts and the message is fixed
                                assert(self.encrypting());
                                assert(err is Crypto);
                            }
                            let mut msg = path.clone();
                            msg.append(": ");
                            let label = err.message();
                            msg.append(label.as_str());
                            proof {
                                assert(msg@ == wp[idx as int] + ": "@ + "encryption error"@);
                                assert(has_path(scan.files@, wp[idx as int]));
                                assert(failure_line_ok(msg@, scan.files@));
                            }
                            failed_files.push(msg);
                        },
                    }
                },
                None => {
                    proof {
                        // unreachable: every work path names a source entry
                        // and the lookup finds it; the record below stays as
                        // a safeguard only
                        assert(crate::scanner::source_has_path(entries@, wp[idx as int]));
                        assert(false);
                    }
                    let mut msg = path.clone();
                    msg.append(": ");
                    msg.append("source file not found");
                    failed_files.push(msg);
                },
            }
            idx += 1;
        }

        // rebuild the manifest from the fresh scan
        let manifest = match previous {
            Some(m) => {
                let mut updated = m.clone();
                updated.update(&scan);
                updated
            },
            None => BackupManifest::from_scan(&scan, &self.config),
        };

        proof {
            assert(idx == wp.len());
        }
        let finished_at = crate::clock::now_millis();
        let success = failed_files.len() == 0;
        let ghost pre_progress = progress@;
        self.report_progress(
            &mut progress,
            BackupProgress {
                processed_files: work.len(),
                total_files: work.len(),
                processed_bytes: backed_up_bytes,
                total_bytes: scan.total_size,
                current_file: None,
                status: if success {
                    BackupStatus::Completed
                } else {
                    BackupStatus::Failed
                },
                error: if success {
                    None
                } else {
                    Some("some files could not be backed up".to_owned())
                },
            },
        );
        proof {
            lemma_progress_push(pre_progress, progress@.last());
            assert(forall|i: int|
                0 <= i < pre_progress.len() ==> progress@[i] == pre_progress[i]);
        }

        let ghost failed_lines = failed_files@;
        let ghost scanned = scan.files@;
        let outcome = BackupOutcome {
            scan,
            manifest,
            blobs,
            result: BackupResult {
                started_at,
                finished_at,
                backed_up_files,
                backed_up_bytes,
                skipped_files: skipped,
                failed_files,
                success,
            },
            progress,
        };
        proof {
            assert(outcome.result.failed_files@ == failed_lines);
            assert(outcome.scan.files@ == scanned);
            assert forall|f: int|
                0 <= f < outcome.result.failed_files@.len() implies failure_line_ok(
                (#[trigger] outcome.result.failed_files@[f])@,
                outcome.scan.files@,
            ) by {
                assert(outcome.result.failed_files@[f] == failed_lines[f]);
                assert(failure_line_ok(failed_lines[f]@, scanned));
            }
        }
        outcome
    }
}

} // verus!
