//! The durable index of the latest successful backup.
//!
//! A manifest records one entry per backed-up file — sizes, content hash,
//! modification time, transform flags — together with the policy of the run
//! and aggregate statistics.  It is built from a scan on the first run and
//! updated from a fresh scan on every later one.

use vstd::prelude::*;
use crate::executor::BackupConfig;
use crate::scanner::FileInfo;
use crate::scanner::ScanResult;
use crate::scanner::sum_sizes;
use crate::scanner::unique_paths;
use crate::text::str_eq;

verus! {

/// Per-file record carried in the manifest.
#[derive(Debug)]
pub struct ManifestEntry {
    /// Path relative to the source root.
    pub path: String,
    /// Size of the source file in bytes.
    pub original_size: u64,
    /// Size written to the destination; 0 when not measured.
    pub backed_up_size: u64,
    /// Lowercase hexadecimal BLAKE3 digest of the content; empty when
    /// hashing was disabled.
    pub hash: String,
    /// Modification instant, milliseconds since the Unix epoch, UTC.
    pub modified: i64,
    /// The stored blob is encrypted.
    pub encrypted: bool,
    /// The stored blob is compressed.
    pub compressed: bool,
}

impl Clone for ManifestEntry {
    fn clone(&self) -> (r: Self)
        ensures
            r == *self,
    {
        ManifestEntry {
            path: self.path.clone(),
            original_size: self.original_size,
            backed_up_size: self.backed_up_size,
            hash: self.hash.clone(),
            modified: self.modified,
            encrypted: self.encrypted,
            compressed: self.compressed,
        }
    }
}

/// Policy snapshot stored in the manifest.
#[derive(Debug, Clone, Copy, PartialEq, Eq, Structural)]
pub struct ManifestConfig {
    pub encrypt: bool,
    pub compress: bool,
    pub incremental: bool,
}

/// Aggregate statistics stored in the manifest.
#[derive(Debug, Clone, Copy, PartialEq, Eq, Structural)]
pub struct ManifestStats {
    /// Always the number of entries.
    pub total_files: usize,
    /// Always the sum of the entries' original sizes.
    pub total_original_size: u64,
    /// Sum of the recorded destination sizes; 0 when not measured.
    pub total_backed_up_size: u64,
    /// When the last backup ran, milliseconds since the Unix epoch, UTC.
    pub last_backup: i64,
    /// How many backup runs wrote this manifest.
    pub backup_count: u32,
}

/// Some entry carries this relative path.
pub open spec fn entry_has_path(s: Seq<ManifestEntry>, k: Seq<char>) -> bool {
    exists|i: int| 0 <= i < s.len() && s[i].path@ == k
}

/// The index of the entry carrying this relative path.
pub open spec fn entry_index_of(s: Seq<ManifestEntry>, k: Seq<char>) -> int {
    choose|i: int| 0 <= i < s.len() && s[i].path@ == k
}

/// The entry carrying this relative path.
pub open spec fn entry_at(s: Seq<ManifestEntry>, k: Seq<char>) -> ManifestEntry {
    s[entry_index_of(s, k)]
}

/// No two entries carry the same relative path.
pub open spec fn unique_entry_paths(s: Seq<ManifestEntry>) -> bool {
    forall|i: int, j: int| 0 <= i < j < s.len() ==> s[i].path@ != s[j].path@
}

/// The sum of the entries' original sizes.
pub open spec fn sum_entry_sizes(s: Seq<ManifestEntry>) -> int
    decreases s.len(),
{
    if s.len() == 0 {
        0
    } else {
        sum_entry_sizes(s.drop_last()) + s.last().original_size
    }
}

/// The hash string a manifest stores for a scanned file: its content hash,
/// or empty when hashing was disabled.
pub open spec fn stored_hash(info: FileInfo) -> Seq<char> {
    if info.hash is Some {
        (info.hash->0)@
    } else {
        Seq::empty()
    }
}

pub proof fn lemma_entry_at_unique(s: Seq<ManifestEntry>, i: int)
    requires
        unique_entry_paths(s),
        0 <= i < s.len(),
    ensures
        entry_has_path(s, s[i].path@),
        entry_at(s, s[i].path@) == s[i],
{
    let k = s[i].path@;
    assert(entry_has_path(s, k));
    let j = entry_index_of(s, k);
    assert(0 <= j < s.len() && s[j].path@ == k);
    if i < j {
        assert(s[i].path@ != s[j].path@);
    }
    if j < i {
        assert(s[j].path@ != s[i].path@);
    }
}

/// The entry a first backup records for a scanned file.
pub open spec fn entry_of_info(e: ManifestEntry, info: FileInfo, enc: bool, comp: bool) -> bool {
    &&& e.path@ == info.relative_path@
    &&& e.original_size == info.size
    &&& e.backed_up_size == 0
    &&& e.hash@ == stored_hash(info)
    &&& e.modified == info.modified
    &&& e.encrypted == enc
    &&& e.compressed == comp
}

/// The entry an update records for a scanned file: content fields refreshed
/// from the scan; destination size and transform flags kept from the old
/// entry when the path was already present, and taken from the stored policy
/// otherwise.
pub open spec fn updated_entry_ok(
    old_files: Seq<ManifestEntry>,
    config: ManifestConfig,
    info: FileInfo,
    e: ManifestEntry,
) -> bool {
    &&& e.path@ == info.relative_path@
    &&& e.original_size == info.size
    &&& e.hash@ == stored_hash(info)
    &&& e.modified == info.modified
    &&& if entry_has_path(old_files, info.relative_path@) {
        let oe = entry_at(old_files, info.relative_path@);
        e.backed_up_size == oe.backed_up_size && e.encrypted == oe.encrypted && e.compressed
            == oe.compressed
    } else {
        e.backed_up_size == 0 && e.encrypted == config.encrypt && e.compressed == config.compress
    }
}

/// Durable top-level record of the latest backup state.
#[derive(Debug)]
pub struct BackupManifest {
    /// Schema version.
    pub version: String,
    /// When the manifest was first created.
    pub created_at: i64,
    /// When the manifest was last rewritten.
    pub updated_at: i64,
    /// The source root of the runs.
    pub source_dir: String,
    /// Policy snapshot of the run.
    pub config: ManifestConfig,
    /// One entry per backed-up file; paths are unique.
    pub files: Vec<ManifestEntry>,
    /// Aggregate statistics.
    pub stats: ManifestStats,
}

impl Clone for BackupManifest {
    fn clone(&self) -> (r: Self)
        ensures
            r.version == self.version,
            r.created_at == self.created_at,
            r.updated_at == self.updated_at,
            r.source_dir == self.source_dir,
            r.config == self.config,
            r.files@ == self.files@,
            r.stats == self.stats,
    {
        let mut files: Vec<ManifestEntry> = Vec::new();
        let mut i: usize = 0;
        while i < self.files.len()
            invariant
                i <= self.files@.len(),
                files@ == self.files@.subrange(0, i as int),
            decreases self.files@.len() - i,
        {
            files.push(self.files[i].clone());
            proof {
                assert(files@ =~= self.files@.subrange(0, i + 1 as int));
            }
            i += 1;
        }
        proof {
            assert(files@ =~= self.files@);
        }
        BackupManifest {
            version: self.version.clone(),
            created_at: self.created_at,
            updated_at: self.updated_at,
            source_dir: self.source_dir.clone(),
            config: self.config,
            files,
            stats: self.stats,
        }
    }
}

impl BackupManifest {
    /// Entry paths are unique and the statistics agree with the entries.
    pub open spec fn wf(&self) -> bool {
        &&& unique_entry_paths(self.files@)
        &&& self.stats.total_files == self.files@.len()
        &&& self.stats.total_original_size == sum_entry_sizes(self.files@)
    }

    /// Looks an entry up by its relative path.
    pub fn get(&self, path: &str) -> (r: Option<&ManifestEntry>)
        ensures
            r is Some <==> entry_has_path(self.files@, path@),
            r is Some ==> (r->0).path@ == path@,
            r is Some ==> exists|i: int|
                0 <= i < self.files@.len() && self.files@[i] == *(r->0),
    {
        find_entry(&self.files, path)
    }

    /// Whether an entry with this relative path is recorded.
    pub fn contains_path(&self, path: &str) -> (r: bool)
        ensures
            r == entry_has_path(self.files@, path@),
    {
        self.get(path).is_some()
    }

    /// Builds the manifest of a first successful run from its scan.
    pub fn from_scan(scan: &ScanResult, config: &BackupConfig) -> (r: Self)
        requires
            scan.wf(),
        ensures
            r.wf(),
            r.version@ == "1.0.0"@,
            r.source_dir@ == scan.source_dir@,
            r.config == (ManifestConfig {
                encrypt: config.encrypt,
                compress: config.compress,
                incremental: config.incremental,
            }),
            r.files@.len() == scan.files@.len(),
            forall|i: int|
                0 <= i < scan.files@.len() ==> entry_of_info(
                    #[trigger] r.files@[i],
                    scan.files@[i],
                    config.encrypt,
                    config.compress,
                ),
            r.stats.total_files == scan.total_files,
            r.stats.total_original_size == scan.total_size,
            r.stats.total_backed_up_size == 0,
            r.stats.backup_count == 1,
            r.created_at == r.updated_at,
            r.created_at == r.stats.last_backup,
    {
        let now = crate::clock::now_millis();
        let files = entries_of_scan(scan, config.encrypt, config.compress);
        let total_files = files.len();
        proof {
            lemma_entries_unique(files@, scan.files@);
        }
        BackupManifest {
            version: "1.0.0".to_owned(),
            created_at: now,
            updated_at: now,
            source_dir: scan.source_dir.clone(),
            config: ManifestConfig {
                encrypt: config.encrypt,
                compress: config.compress,
                incremental: config.incremental,
            },
            files,
            stats: ManifestStats {
                total_files,
                total_original_size: scan.total_size,
                total_backed_up_size: 0,
                last_backup: now,
                backup_count: 1,
            },
        }
    }

    /// Rewrites the manifest after a later run: every scanned path is
    /// refreshed or inserted, every vanished path is dropped, the statistics
    /// are recomputed, and the backup counter grows by one.
    pub fn update(&mut self, scan: &ScanResult)
        requires
            old(self).wf(),
            scan.wf(),
            old(self).stats.backup_count < u32::MAX,
        ensures
            final(self).wf(),
            final(self).files@.len() == scan.files@.len(),
            forall|i: int|
                0 <= i < scan.files@.len() ==> updated_entry_ok(
                    old(self).files@,
                    old(self).config,
                    scan.files@[i],
                    #[trigger] final(self).files@[i],
                ),
            final(self).stats.total_files == scan.total_files,
            final(self).stats.total_original_size == scan.total_size,
            final(self).stats.total_backed_up_size
                == old(self).stats.total_backed_up_size,
            final(self).stats.backup_count == old(self).stats.backup_count + 1,
            final(self).stats.last_backup == final(self).updated_at,
            final(self).version@ == old(self).version@,
            final(self).created_at == old(self).created_at,
            final(self).source_dir@ == old(self).source_dir@,
            final(self).config == old(self).config,
    {
        let now = crate::clock::now_millis();
        let mut files: Vec<ManifestEntry> = Vec::new();
        let mut i: usize = 0;
        proof {
            assert(scan.files@.subrange(0, 0) =~= Seq::<FileInfo>::empty());
        }
        while i < scan.files.len()
            invariant
                i <= scan.files@.len(),
                unique_entry_paths(old(self).files@),
                unique_paths(scan.files@),
                self.files@ == old(self).files@,
                self.config == old(self).config,
                files@.len() == i,
                forall|j: int|
                    0 <= j < i ==> updated_entry_ok(
                        old(self).files@,
                        old(self).config,
                        scan.files@[j],
                        #[trigger] files@[j],
                    ),
                sum_entry_sizes(files@) == sum_sizes(scan.files@.subrange(0, i as int)),
            decreases scan.files@.len() - i,
        {
            let info = &scan.files[i];
            let hash = match &info.hash {
                Some(h) => h.clone(),
                None => String::new(),
            };
            let entry = match find_entry(&self.files, info.relative_path.as_str()) {
                Some(oe) => {
                    proof {
                        let oi = choose|m: int|
                            0 <= m < old(self).files@.len() && old(self).files@[m] == *oe;
                        lemma_entry_at_unique(old(self).files@, oi);
                        assert(entry_at(old(self).files@, info.relative_path@) == *oe);
                    }
                    ManifestEntry {
                        path: info.relative_path.clone(),
                        original_size: info.size,
                        backed_up_size: oe.backed_up_size,
                        hash,
                        modified: info.modified,
                        encrypted: oe.encrypted,
                        compressed: oe.compressed,
                    }
                },
                None => ManifestEntry {
                    path: info.relative_path.clone(),
                    original_size: info.size,
                    backed_up_size: 0,
                    hash,
                    modified: info.modified,
                    encrypted: self.config.encrypt,
                    compressed: self.config.compress,
                },
            };
            let ghost prev = files@;
            files.push(entry);
            proof {
                assert(files@.drop_last() =~= prev);
                assert(scan.files@.subrange(0, i + 1 as int).drop_last() =~= scan.files@.subrange(
                    0,
                    i as int,
                ));
                assert(scan.files@.subrange(0, i + 1 as int).last() == scan.files@[i as int]);
            }
            i += 1;
        }
        proof {
            assert(scan.files@.subrange(0, scan.files@.len() as int) =~= scan.files@);
            lemma_updated_unique(files@, scan.files@);
        }
        let total_files = files.len();
        self.files = files;
        self.updated_at = now;
        self.stats = ManifestStats {
            total_files,
            total_original_size: scan.total_size,
            total_backed_up_size: self.stats.total_backed_up_size,
            last_backup: now,
            backup_count: self.stats.backup_count + 1,
        };
    }
}

/// Looks an entry up by its relative path in a list of entries.
fn find_entry<'a>(files: &'a Vec<ManifestEntry>, path: &str) -> (r: Option<&'a ManifestEntry>)
    ensures
        r is Some <==> entry_has_path(files@, path@),
        r is Some ==> (r->0).path@ == path@,
        r is Some ==> exists|i: int| 0 <= i < files@.len() && files@[i] == *(r->0),
{
    let mut i: usize = 0;
    while i < files.len()
        invariant
            i <= files@.len(),
            forall|j: int| 0 <= j < i ==> files@[j].path@ != path@,
        decreases files@.len() - i,
    {
        if str_eq(files[i].path.as_str(), path) {
            return Some(&files[i]);
        }
        i += 1;
    }
    None
}

fn entries_of_scan(scan: &ScanResult, enc: bool, comp: bool) -> (r: Vec<ManifestEntry>)
    requires
        scan.wf(),
    ensures
        r@.len() == scan.files@.len(),
        forall|i: int|
            0 <= i < scan.files@.len() ==> entry_of_info(
                #[trigger] r@[i],
                scan.files@[i],
                enc,
                comp,
            ),
        sum_entry_sizes(r@) == sum_sizes(scan.files@),
{
    let mut files: Vec<ManifestEntry> = Vec::new();
    let mut i: usize = 0;
    proof {
        assert(scan.files@.subrange(0, 0) =~= Seq::<FileInfo>::empty());
    }
    while i < scan.files.len()
        invariant
            i <= scan.files@.len(),
            files@.len() == i,
            forall|j: int|
                0 <= j < i ==> entry_of_info(#[trigger] files@[j], scan.files@[j], enc, comp),
            sum_entry_sizes(files@) == sum_sizes(scan.files@.subrange(0, i as int)),
        decreases scan.files@.len() - i,
    {
        let info = &scan.files[i];
        let hash = match &info.hash {
            Some(h) => h.clone(),
            None => String::new(),
        };
        let entry = ManifestEntry {
            path: info.relative_path.clone(),
            original_size: info.size,
            backed_up_size: 0,
            hash,
            modified: info.modified,
            encrypted: enc,
            compressed: comp,
        };
        let ghost prev = files@;
        files.push(entry);
        proof {
            assert(files@.drop_last() =~= prev);
            assert(scan.files@.subrange(0, i + 1 as int).drop_last() =~= scan.files@.subrange(
                0,
                i as int,
            ));
            assert(scan.files@.subrange(0, i + 1 as int).last() == scan.files@[i as int]);
        }
        i += 1;
    }
    proof {
        assert(scan.files@.subrange(0, scan.files@.len() as int) =~= scan.files@);
    }
    files
}

/// Entries built pointwise from scanned files inherit their unique paths.
proof fn lemma_entries_unique(entries: Seq<ManifestEntry>, files: Seq<FileInfo>)
    requires
        entries.len() == files.len(),
        forall|i: int|
            0 <= i < files.len() ==> (#[trigger] entries[i]).path@ == files[i].relative_path@,
        unique_paths(files),
    ensures
        unique_entry_paths(entries),
{
}

proof fn lemma_updated_unique(entries: Seq<ManifestEntry>, files: Seq<FileInfo>)
    requires
        entries.len() == files.len(),
        forall|i: int|
            0 <= i < files.len() ==> (#[trigger] entries[i]).path@ == files[i].relative_path@,
        unique_paths(files),
    ensures
        unique_entry_paths(entries),
{
}

} // verus!
