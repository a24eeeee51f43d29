//! The restore run: pick the recorded files to bring back, read each blob,
//! undo its transforms, and hand the plaintext files to the caller.

use vstd::prelude::*;
use crate::codec::decompress_stage;
use crate::codec::decrypt_stage;
use crate::codec::zstd_decompress;
use crate::crypto::CryptoError;
use crate::crypto::Encryptor;
use crate::executor::BackupBlob;
use crate::executor::blob_path_of;
use crate::manifest::BackupManifest;
use crate::manifest::ManifestEntry;
use crate::manifest::entry_at;
use crate::manifest::entry_has_path;
use crate::manifest::lemma_entry_at_unique;
use crate::manifest::unique_entry_paths;
use crate::scanner::views_of;
use crate::text::str_eq;
use vstd::string::StringSliceAdditionalSpecFns;
use vstd::string::StringExecFns;

verus! {

/// Error that ends a restore run or one of its files.
#[derive(Debug)]
pub enum RestoreError {
    Io(String),
    Crypto(CryptoError),
    ManifestNotFound(String),
    ManifestParse(String),
    BackupFileNotFound(String),
    Decompression,
    WrongPassword,
}

impl RestoreError {
    /// A short description, used when a per-file failure is recorded.
    pub fn message(&self) -> (r: String)
        ensures
            self matches RestoreError::Io(s) ==> r@ == s@,
            self is Crypto ==> r@ == "decryption error"@,
            self is ManifestNotFound ==> r@ == "manifest not found"@,
            self matches RestoreError::ManifestParse(s) ==> r@ == s@,
            self is BackupFileNotFound ==> r@ == "backup file not found"@,
            self is Decompression ==> r@ == "decompression error"@,
            self is WrongPassword ==> r@ == "wrong password"@,
    {
        match self {
            RestoreError::Io(s) => s.clone(),
            RestoreError::Crypto(_) => "decryption error".to_owned(),
            RestoreError::ManifestNotFound(_) => "manifest not found".to_owned(),
            RestoreError::ManifestParse(s) => s.clone(),
            RestoreError::BackupFileNotFound(_) => "backup file not found".to_owned(),
            RestoreError::Decompression => "decompression error".to_owned(),
            RestoreError::WrongPassword => "wrong password".to_owned(),
        }
    }
}

/// What to restore, from where, to where.
#[derive(Debug)]
pub struct RestoreConfig {
    /// The backup destination to read from.
    pub backup_dir: String,
    /// The directory the files are restored into.
    pub restore_dir: String,
    /// The relative paths to restore; empty means every recorded file.
    pub files: Vec<String>,
    /// Overwrite files that already exist in the restore directory.
    pub overwrite: bool,
}

/// Phase of a restore run.
#[derive(Debug, Clone, Copy, PartialEq, Eq, Structural)]
pub enum RestoreStatus {
    Idle,
    LoadingManifest,
    Restoring,
    Completed,
    Failed,
}

/// One progress snapshot of a restore run.
#[derive(Debug)]
pub struct RestoreProgress {
    pub processed_files: usize,
    pub total_files: usize,
    pub processed_bytes: u64,
    pub total_bytes: u64,
    pub current_file: Option<String>,
    pub status: RestoreStatus,
    pub error: Option<String>,
}

/// What one restore run did.
#[derive(Debug)]
pub struct RestoreResult {
    /// When the run started, milliseconds since the Unix epoch, UTC.
    pub started_at: i64,
    /// When the run finished, milliseconds since the Unix epoch, UTC.
    pub finished_at: i64,
    /// Files brought back.
    pub restored_files: usize,
    /// Recorded source bytes of the files brought back.
    pub restored_bytes: u64,
    /// Files left alone because they already existed and overwriting was
    /// off.
    pub skipped_files: usize,
    /// One `"path: reason"` line per file that failed; failures never abort
    /// the run.
    pub failed_files: Vec<String>,
    /// True exactly when no file failed.
    pub success: bool,
}

/// One restored file: its path relative to the restore directory and its
/// plaintext content.
#[derive(Debug)]
pub struct RestoredFile {
    pub path: String,
    pub data: Vec<u8>,
}

/// Everything a restore run produces: the plaintext files to write, the run
/// summary and the progress trace.
#[derive(Debug)]
pub struct RestoreOutcome {
    pub files: Vec<RestoredFile>,
    pub result: RestoreResult,
    pub progress: Vec<RestoreProgress>,
}

/// What one file's restore decided.
enum RestoreStep {
    Restored(RestoredFile),
    Skipped,
}

/// The bytes stored under a destination-relative path, taking the first
/// blob that carries it.
pub open spec fn blob_lookup(s: Seq<BackupBlob>, k: Seq<char>) -> Option<Seq<u8>>
    decreases s.len(),
{
    if s.len() == 0 {
        None
    } else if s.first().path@ == k {
        Some(s.first().data@)
    } else {
        blob_lookup(s.drop_first(), k)
    }
}

fn blob_find<'a>(blobs: &'a Vec<BackupBlob>, path: &str) -> (r: Option<&'a BackupBlob>)
    ensures
        r is Some <==> blob_lookup(blobs@, path@) is Some,
        r is Some ==> Some((r->0).data@) == blob_lookup(blobs@, path@),
{
    let mut i: usize = 0;
    proof {
        assert(blobs@.skip(0) =~= blobs@);
    }
    while i < blobs.len()
        invariant
            i <= blobs@.len(),
            blob_lookup(blobs@, path@) == blob_lookup(blobs@.skip(i as int), path@),
        decreases blobs@.len() - i,
    {
        proof {
            assert(blobs@.skip(i as int).first() == blobs@[i as int]);
            assert(blobs@.skip(i as int).drop_first() =~= blobs@.skip(i + 1 as int));
        }
        if str_eq(blobs[i].path.as_str(), path) {
            return Some(&blobs[i]);
        }
        i += 1;
    }
    proof {
        assert(blobs@.skip(blobs@.len() as int).len() == 0);
    }
    None
}

/// Decides whether some string of the vector reads `path`.
fn str_vec_contains(v: &Vec<String>, path: &str) -> (r: bool)
    ensures
        r == views_of(v@).contains(path@),
{
    let mut i: usize = 0;
    while i < v.len()
        invariant
            i <= v@.len(),
            forall|m: int| 0 <= m < i ==> (#[trigger] v@[m])@ != path@,
        decreases v@.len() - i,
    {
        if str_eq(v[i].as_str(), path) {
            proof {
                assert(views_of(v@)[i as int] == path@);
            }
            return true;
        }
        i += 1;
    }
    proof {
        assert(!views_of(v@).contains(path@)) by {
            if views_of(v@).contains(path@) {
                let m = choose|m: int| 0 <= m < views_of(v@).len() && views_of(v@)[m] == path@;
                assert(v@[m]@ == path@);
            }
        }
    }
    false
}

/// The entries a restore works on when specific paths were requested: the
/// recorded entry of each requested path, in request order, requests for
/// unrecorded paths silently dropped.
pub open spec fn targets_of(files: Seq<ManifestEntry>, requested: Seq<Seq<char>>) -> Seq<
    ManifestEntry,
>
    decreases requested.len(),
{
    if requested.len() == 0 {
        Seq::empty()
    } else {
        let rest = targets_of(files, requested.drop_last());
        if entry_has_path(files, requested.last()) {
            rest.push(entry_at(files, requested.last()))
        } else {
            rest
        }
    }
}

/// The entries a restore works on: every recorded entry when no path was
/// requested, the recorded entries of the requested paths otherwise.
pub open spec fn restore_targets(files: Seq<ManifestEntry>, requested: Seq<Seq<char>>) -> Seq<
    ManifestEntry,
> {
    if requested.len() == 0 {
        files
    } else {
        targets_of(files, requested)
    }
}

/// A restored file is the recorded blob of its entry run backwards through
/// the transform stages.
pub open spec fn restored_ok(
    f: RestoredFile,
    e: ManifestEntry,
    manifest_compress: bool,
    blobs: Seq<BackupBlob>,
    pass: Option<Seq<u8>>,
) -> bool {
    let raw = blob_lookup(blobs, blob_path_of(e.encrypted, e.path@));
    let dec = decrypt_stage(pass, e.encrypted, raw->0);
    &&& raw is Some
    &&& dec is Some
    &&& decompress_stage(e.compressed || manifest_compress, dec->0) == Some(f.data@)
    &&& f.path@ == e.path@
}

/// Nothing stands in the way of restoring this entry: it has a blob, the
/// blob decrypts (with the passphrase at hand, when encrypted), and the
/// result decompresses.
pub open spec fn target_restorable(
    e: ManifestEntry,
    manifest_compress: bool,
    blobs: Seq<BackupBlob>,
    pass: Option<Seq<u8>>,
) -> bool {
    let raw = blob_lookup(blobs, blob_path_of(e.encrypted, e.path@));
    let dec = decrypt_stage(pass, e.encrypted, raw->0);
    &&& raw is Some
    &&& dec is Some
    &&& decompress_stage(e.compressed || manifest_compress, dec->0) is Some
}

/// The entry is left alone: its path already exists at the destination and
/// overwriting is off.
pub open spec fn skip_of(e: ManifestEntry, existing: Seq<Seq<char>>, overwrite: bool) -> bool {
    existing.contains(e.path@) && !overwrite
}

/// How many targets a run skips.
pub open spec fn skipped_count_of(
    targets: Seq<ManifestEntry>,
    existing: Seq<Seq<char>>,
    overwrite: bool,
) -> int
    decreases targets.len(),
{
    if targets.len() == 0 {
        0
    } else {
        skipped_count_of(targets.drop_last(), existing, overwrite) + (
        if skip_of(targets.last(), existing, overwrite) {
            1int
        } else {
            0int
        })
    }
}

/// The targets a run restores, in order: not skipped, and restorable.
pub open spec fn restored_targets_of(
    targets: Seq<ManifestEntry>,
    manifest_compress: bool,
    blobs: Seq<BackupBlob>,
    pass: Option<Seq<u8>>,
    existing: Seq<Seq<char>>,
    overwrite: bool,
) -> Seq<ManifestEntry>
    decreases targets.len(),
{
    if targets.len() == 0 {
        Seq::empty()
    } else {
        let rest = restored_targets_of(
            targets.drop_last(),
            manifest_compress,
            blobs,
            pass,
            existing,
            overwrite,
        );
        let e = targets.last();
        if !skip_of(e, existing, overwrite) && target_restorable(
            e,
            manifest_compress,
            blobs,
            pass,
        ) {
            rest.push(e)
        } else {
            rest
        }
    }
}

/// The targets a run records a failure for, in order: not skipped, and not
/// restorable.
pub open spec fn failed_targets_of(
    targets: Seq<ManifestEntry>,
    manifest_compress: bool,
    blobs: Seq<BackupBlob>,
    pass: Option<Seq<u8>>,
    existing: Seq<Seq<char>>,
    overwrite: bool,
) -> Seq<ManifestEntry>
    decreases targets.len(),
{
    if targets.len() == 0 {
        Seq::empty()
    } else {
        let rest = failed_targets_of(
            targets.drop_last(),
            manifest_compress,
            blobs,
            pass,
            existing,
            overwrite,
        );
        let e = targets.last();
        if !skip_of(e, existing, overwrite) && !target_restorable(
            e,
            manifest_compress,
            blobs,
            pass,
        ) {
            rest.push(e)
        } else {
            rest
        }
    }
}

/// Why an unrestorable entry fails, named by the first stage that declines:
/// a missing blob, then decryption, then decompression.
pub open spec fn failure_reason_of(
    e: ManifestEntry,
    manifest_compress: bool,
    blobs: Seq<BackupBlob>,
    pass: Option<Seq<u8>>,
) -> Seq<char> {
    let raw = blob_lookup(blobs, blob_path_of(e.encrypted, e.path@));
    if raw is None {
        "backup file not found"@
    } else if decrypt_stage(pass, e.encrypted, raw->0) is None {
        "wrong password"@
    } else {
        "decompression error"@
    }
}

/// Drives one restore run over in-memory blobs of a backup destination.
pub struct RestoreExecutor {
    config: RestoreConfig,
    encryptor: Option<Encryptor>,
}

impl RestoreExecutor {
    /// The run's configuration.
    pub closed spec fn cfg(&self) -> RestoreConfig {
        self.config
    }

    /// The passphrase bytes, when a decryption engine is present.
    pub closed spec fn pass(&self) -> Option<Seq<u8>> {
        match self.encryptor {
            Some(e) => Some(e@),
            None => None,
        }
    }

    /// An executor for this configuration, without a decryption engine.
    pub fn new(config: RestoreConfig) -> (r: Self)
        ensures
            r.cfg() == config,
            r.pass() is None,
    {
        RestoreExecutor { config, encryptor: None }
    }

    /// Installs the decryption engine for the passphrase.
    pub fn with_password(self, password: &str) -> (r: Self)
        ensures
            r.cfg() == self.cfg(),
            r.pass() == Some(password.spec_bytes()),
    {
        RestoreExecutor { config: self.config, encryptor: Some(Encryptor::new(password)) }
    }

    /// Appends one progress snapshot to the run's trace.
    fn report_progress(&self, trace: &mut Vec<RestoreProgress>, p: RestoreProgress)
        ensures
            final(trace)@ == old(trace)@.push(p),
    {
        trace.push(p);
    }

    /// Restores one recorded file from the blobs: skip it when it already
    /// exists and overwriting is off; find its blob, decrypt it when the
    /// entry is encrypted (failing without the right passphrase), and
    /// decompress it when the entry or the run's policy says so.
    fn restore_file(
        &self,
        entry: &ManifestEntry,
        manifest_compress: bool,
        blobs: &Vec<BackupBlob>,
        existing: &Vec<String>,
    ) -> (r: Result<RestoreStep, RestoreError>)
        ensures
            ({
                let skip = views_of(existing@).contains(entry.path@) && !self.cfg().overwrite;
                let raw = blob_lookup(blobs@, blob_path_of(entry.encrypted, entry.path@));
                let dec = decrypt_stage(self.pass(), entry.encrypted, raw->0);
                let out = decompress_stage(entry.compressed || manifest_compress, dec->0);
                &&& (skip ==> (r matches Ok(RestoreStep::Skipped)))
                &&& (!skip && raw is None ==> (r matches Err(e) && e matches
                    RestoreError::BackupFileNotFound(p) && p@ == blob_path_of(
                    entry.encrypted,
                    entry.path@,
                )))
                &&& (!skip && raw is Some && dec is None ==> (r matches Err(e)
                    && e is WrongPassword))
                &&& (!skip && raw is Some && dec is Some && out is None ==> (r matches Err(e)
                    && e is Decompression))
                &&& (!skip && raw is Some && dec is Some && out is Some ==> (r matches Ok(
                    RestoreStep::Restored(f),
                ) && f.path@ == entry.path@ && Some(f.data@) == out))
            }),
    {
        if str_vec_contains(existing, entry.path.as_str()) && !self.config.overwrite {
            return Ok(RestoreStep::Skipped);
        }
        let mut blob_name = "data/".to_owned();
        blob_name.append(entry.path.as_str());
        if entry.encrypted {
            blob_name.append(".enc");
        }
        let blob = match blob_find(blobs, blob_name.as_str()) {
            Some(b) => b,
            None => {
                return Err(RestoreError::BackupFileNotFound(blob_name));
            },
        };
        let data: Vec<u8>;
        if entry.encrypted {
            match &self.encryptor {
                Some(enc) => {
                    match enc.decrypt(blob.data.as_slice()) {
                        Ok(plain) => {
                            data = plain;
                        },
                        Err(_) => {
                            return Err(RestoreError::WrongPassword);
                        },
                    }
                },
                None => {
                    return Err(RestoreError::WrongPassword);
                },
            }
        } else {
            data = vstd::slice::slice_to_vec(blob.data.as_slice());
        }
        let out: Vec<u8>;
        if entry.compressed || manifest_compress {
            match zstd_decompress(data.as_slice()) {
                Some(plain) => {
                    out = plain;
                },
                None => {
                    return Err(RestoreError::Decompression);
                },
            }
        } else {
            out = data;
        }
        Ok(RestoreStep::Restored(RestoredFile { path: entry.path.clone(), data: out }))
    }

    /// Runs a restore: picks the recorded entries the configuration asks
    /// for and settles each one exactly — skipped when its path already
    /// exists and overwriting is off, restored to its source bytes when its
    /// blob is present and runs backwards through the stages, and recorded
    /// as one `"path: reason"` failure line otherwise; failures never abort
    /// the run.  The progress trace is one loading event, one restoring
    /// event per target naming it, and a terminal event.
    #[verifier::rlimit(100)]
    pub fn execute(
        &self,
        manifest: &BackupManifest,
        blobs: &Vec<BackupBlob>,
        existing: &Vec<String>,
    ) -> (r: RestoreOutcome)
        requires
            unique_entry_paths(manifest.files@),
        ensures
            r.result.restored_files == r.files@.len(),
            r.result.success == (r.result.failed_files@.len() == 0),
            ({
                let tgts = restore_targets(manifest.files@, views_of(self.cfg().files@));
                let ex = views_of(existing@);
                let ov = self.cfg().overwrite;
                let mc = manifest.config.compress;
                let restored = restored_targets_of(tgts, mc, blobs@, self.pass(), ex, ov);
                let failed = failed_targets_of(tgts, mc, blobs@, self.pass(), ex, ov);
                &&& r.result.skipped_files == skipped_count_of(tgts, ex, ov)
                &&& r.files@.len() == restored.len()
                &&& forall|i: int|
                    0 <= i < restored.len() ==> restored_ok(
                        #[trigger] r.files@[i],
                        restored[i],
                        mc,
                        blobs@,
                        self.pass(),
                    )
                &&& r.result.failed_files@.len() == failed.len()
                &&& forall|i: int|
                    0 <= i < failed.len() ==> (#[trigger] r.result.failed_files@[i])@
                        == failed[i].path@ + ": "@ + failure_reason_of(
                        failed[i],
                        mc,
                        blobs@,
                        self.pass(),
                    )
                &&& r.result.restored_files + r.result.skipped_files
                    + r.result.failed_files@.len() == tgts.len()
                &&& r.progress@.len() == tgts.len() + 2
                &&& forall|i: int|
                    0 <= i < tgts.len() ==> {
                        let p = #[trigger] r.progress@[1 + i];
                        p.status is Restoring && p.processed_files == i && p.total_files
                            == tgts.len() && p.current_file is Some && (p.current_file->0)@
                            == tgts[i].path@
                    }
                &&& r.progress@.last().processed_files == tgts.len()
            }),
            r.progress@[0].status is LoadingManifest,
            r.progress@[0].processed_files == 0,
            r.progress@.last().status == (if r.result.success {
                RestoreStatus::Completed
            } else {
                RestoreStatus::Failed
            }),
    {
        let started_at = crate::clock::now_millis();
        let mut progress: Vec<RestoreProgress> = Vec::new();
        self.report_progress(
            &mut progress,
            RestoreProgress {
                processed_files: 0,
                total_files: 0,
                processed_bytes: 0,
                total_bytes: 0,
                current_file: None,
                status: RestoreStatus::LoadingManifest,
                error: None,
            },
        );

        // pick the entries to restore
        let mut targets: Vec<ManifestEntry> = Vec::new();
        let mut total_bytes: u64 = 0;
        if self.config.files.len() == 0 {
            let mut i: usize = 0;
            while i < manifest.files.len()
                invariant
                    i <= manifest.files@.len(),
                    targets@ == manifest.files@.subrange(0, i as int),
                decreases manifest.files@.len() - i,
            {
                let e = manifest.files[i].clone();
                total_bytes = if total_bytes <= u64::MAX - e.original_size {
                    total_bytes + e.original_size
                } else {
                    u64::MAX
                };
                targets.push(e);
                proof {
                    assert(targets@ =~= manifest.files@.subrange(0, i + 1 as int));
                }
                i += 1;
            }
            proof {
                assert(targets@ =~= manifest.files@);
            }
        } else {
            let mut i: usize = 0;
            proof {
                assert(views_of(self.cfg().files@.subrange(0, 0)) =~= Seq::<Seq<char>>::empty());
            }
            while i < self.config.files.len()
                invariant
                    i <= self.cfg().files@.len(),
                    unique_entry_paths(manifest.files@),
                    targets@ == targets_of(
                        manifest.files@,
                        views_of(self.cfg().files@.subrange(0, i as int)),
                    ),
                decreases self.cfg().files@.len() - i,
            {
                let path = &self.config.files[i];
                proof {
                    assert(views_of(self.cfg().files@.subrange(0, i + 1 as int)).drop_last() =~=
                        views_of(self.cfg().files@.subrange(0, i as int)));
                    assert(views_of(self.cfg().files@.subrange(0, i + 1 as int)).last()
                        == self.cfg().files@[i as int]@);
                }
                match manifest.get(path.as_str()) {
                    Some(e) => {
                        proof {
                            let oi = choose|m: int|
                                0 <= m < manifest.files@.len() && manifest.files@[m] == *e;
                            lemma_entry_at_unique(manifest.files@, oi);
                            assert(entry_at(manifest.files@, path@) == *e);
                        }
                        let cloned = e.clone();
                        total_bytes = if total_bytes <= u64::MAX - cloned.original_size {
                            total_bytes + cloned.original_size
                        } else {
                            u64::MAX
                        };
                        targets.push(cloned);
                    },
                    None => {},
                }
                i += 1;
            }
            proof {
                assert(self.cfg().files@.subrange(0, self.cfg().files@.len() as int) =~=
                    self.cfg().files@);
            }
        }
        let ghost target_seq = restore_targets(manifest.files@, views_of(self.cfg().files@));
        let ghost ex = views_of(existing@);
        let ghost mc = manifest.config.compress;
        proof {
            assert(targets@ == target_seq);
            assert(target_seq.subrange(0, 0) =~= Seq::<ManifestEntry>::empty());
        }

        // restore each target
        let mut files: Vec<RestoredFile> = Vec::new();
        let mut failed_files: Vec<String> = Vec::new();
        let mut restored_files: usize = 0;
        let mut restored_bytes: u64 = 0;
        let mut skipped_files: usize = 0;
        let mut idx: usize = 0;
        while idx < targets.len()
            invariant
                idx <= targets@.len(),
                targets@ == target_seq,
                ex == views_of(existing@),
                mc == manifest.config.compress,
                restored_files == files@.len(),
                restored_files + skipped_files + failed_files@.len() == idx,
                skipped_files == skipped_count_of(
                    target_seq.subrange(0, idx as int),
                    ex,
                    self.cfg().overwrite,
                ),
                files@.len() == restored_targets_of(
                    target_seq.subrange(0, idx as int),
                    mc,
                    blobs@,
                    self.pass(),
                    ex,
                    self.cfg().overwrite,
                ).len(),
                forall|i: int|
                    0 <= i < files@.len() ==> restored_ok(
                        #[trigger] files@[i],
                        restored_targets_of(
                            target_seq.subrange(0, idx as int),
                            mc,
                            blobs@,
                            self.pass(),
                            ex,
                            self.cfg().overwrite,
                        )[i],
                        mc,
                        blobs@,
                        self.pass(),
                    ),
                failed_files@.len() == failed_targets_of(
                    target_seq.subrange(0, idx as int),
                    mc,
                    blobs@,
                    self.pass(),
                    ex,
                    self.cfg().overwrite,
                ).len(),
                forall|i: int|
                    0 <= i < failed_files@.len() ==> (#[trigger] failed_files@[i])@
                        == failed_targets_of(
                        target_seq.subrange(0, idx as int),
                        mc,
                        blobs@,
                        self.pass(),
                        ex,
                        self.cfg().overwrite,
                    )[i].path@ + ": "@ + failure_reason_of(
                        failed_targets_of(
                            target_seq.subrange(0, idx as int),
                            mc,
                            blobs@,
                            self.pass(),
                            ex,
                            self.cfg().overwrite,
                        )[i],
                        mc,
                        blobs@,
                        self.pass(),
                    ),
                progress@.len() == idx + 1,
                progress@[0].status is LoadingManifest,
                progress@[0].processed_files == 0,
                forall|i: int|
                    0 <= i < idx ==> {
                        let p = #[trigger] progress@[1 + i];
                        p.status is Restoring && p.processed_files == i && p.total_files
                            == target_seq.len() && p.current_file is Some && (
                        p.current_file->0)@ == target_seq[i].path@
                    },
            decreases targets@.len() - idx,
        {
            let entry = &targets[idx];
            let ghost pre = target_seq.subrange(0, idx as int);
            let ghost post = target_seq.subrange(0, idx + 1 as int);
            let ghost trace0 = progress@;
            proof {
                assert(post.drop_last() =~= pre);
                assert(post.last() == target_seq[idx as int]);
            }
            self.report_progress(
                &mut progress,
                RestoreProgress {
                    processed_files: idx,
                    total_files: targets.len(),
                    processed_bytes: restored_bytes,
                    total_bytes,
                    current_file: Some(entry.path.clone()),
                    status: RestoreStatus::Restoring,
                    error: None,
                },
            );
            proof {
                assert(forall|i: int| 0 <= i < trace0.len() ==> progress@[i] == trace0[i]);
                assert(progress@[1 + idx as int].current_file is Some);
            }
            match self.restore_file(entry, manifest.config.compress, blobs, existing) {
                Ok(RestoreStep::Restored(f)) => {
                    proof {
                        assert(!skip_of(target_seq[idx as int], ex, self.cfg().overwrite));
                        assert(target_restorable(
                            target_seq[idx as int],
                            mc,
                            blobs@,
                            self.pass(),
                        ));
                        assert(restored_ok(f, target_seq[idx as int], mc, blobs@, self.pass()));
                        assert(restored_targets_of(
                            post,
                            mc,
                            blobs@,
                            self.pass(),
                            ex,
                            self.cfg().overwrite,
                        ) =~= restored_targets_of(
                            pre,
                            mc,
                            blobs@,
                            self.pass(),
                            ex,
                            self.cfg().overwrite,
                        ).push(target_seq[idx as int]));
                    }
                    files.push(f);
                    restored_files = restored_files + 1;
                    restored_bytes = if restored_bytes <= u64::MAX - entry.original_size {
                        restored_bytes + entry.original_size
                    } else {
                        u64::MAX
                    };
                },
                Ok(RestoreStep::Skipped) => {
                    proof {
                        assert(skip_of(target_seq[idx as int], ex, self.cfg().overwrite));
                    }
                    skipped_files = skipped_files + 1;
                },
                Err(err) => {
                    proof {
                        assert(!skip_of(target_seq[idx as int], ex, self.cfg().overwrite));
                        assert(!target_restorable(
                            target_seq[idx as int],
                            mc,
                            blobs@,
                            self.pass(),
                        ));
                        assert(failed_targets_of(
                            post,
                            mc,
                            blobs@,
                            self.pass(),
                            ex,
                            self.cfg().overwrite,
                        ) =~= failed_targets_of(
                            pre,
                            mc,
                            blobs@,
                            self.pass(),
                            ex,
                            self.cfg().overwrite,
                        ).push(target_seq[idx as int]));
                    }
                    let mut msg = entry.path.clone();
                    msg.append(": ");
                    let label = err.message();
                    msg.append(label.as_str());
                    proof {
                        assert(label@ == failure_reason_of(
                            target_seq[idx as int],
                            mc,
                            blobs@,
                            self.pass(),
                        ));
                        assert(msg@ == target_seq[idx as int].path@ + ": "@ + label@);
                    }
                    failed_files.push(msg);
                },
            }
            idx += 1;
        }
        proof {
            assert(target_seq.subrange(0, target_seq.len() as int) =~= target_seq);
        }

        let finished_at = crate::clock::now_millis();
        let success = failed_files.len() == 0;
        self.report_progress(
            &mut progress,
            RestoreProgress {
                processed_files: targets.len(),
                total_files: targets.len(),
                processed_bytes: restored_bytes,
                total_bytes,
                current_file: None,
                status: if success {
                    RestoreStatus::Completed
                } else {
                    RestoreStatus::Failed
                },
                error: if success {
                    None
                } else {
                    Some("some files could not be restored".to_owned())
                },
            },
        );

        RestoreOutcome {
            files,
            result: RestoreResult {
                started_at,
                finished_at,
                restored_files,
                restored_bytes,
                skipped_files,
                failed_files,
                success,
            },
            progress,
        }
    }
}

/// A summary of a backup destination, read from its manifest.
#[derive(Debug)]
pub struct BackupInfo {
    pub version: String,
    pub created_at: i64,
    pub updated_at: i64,
    pub source_dir: String,
    pub total_files: usize,
    pub total_original_size: u64,
    pub total_backed_up_size: u64,
    pub encrypted: bool,
    pub compressed: bool,
    pub backup_count: u32,
}

impl<'a> vstd::std_specs::convert::FromSpecImpl<&'a BackupManifest> for BackupInfo {
    open spec fn obeys_from_spec() -> bool {
        true
    }

    open spec fn from_spec(m: &'a BackupManifest) -> BackupInfo {
        BackupInfo {
            version: m.version,
            created_at: m.created_at,
            updated_at: m.updated_at,
            source_dir: m.source_dir,
            total_files: m.stats.total_files,
            total_original_size: m.stats.total_original_size,
            total_backed_up_size: m.stats.total_backed_up_size,
            encrypted: m.config.encrypt,
            compressed: m.config.compress,
            backup_count: m.stats.backup_count,
        }
    }
}

impl<'a> From<&'a BackupManifest> for BackupInfo {
    fn from(m: &'a BackupManifest) -> (r: BackupInfo) {
        BackupInfo {
            version: m.version.clone(),
            created_at: m.created_at,
            updated_at: m.updated_at,
            source_dir: m.source_dir.clone(),
            total_files: m.stats.total_files,
            total_original_size: m.stats.total_original_size,
            total_backed_up_size: m.stats.total_backed_up_size,
            encrypted: m.config.encrypt,
            compressed: m.config.compress,
            backup_count: m.stats.backup_count,
        }
    }
}

} // verus!
