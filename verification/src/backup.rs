//! Combined backup of the full SkillDo state: the unified configuration,
//! the managed skills with their install sources, and a checksummed image
//! of the database.

use vstd::prelude::*;
use base64::Engine;
use sha2::Digest;
use crate::app_config::{opt_view, AppConfig, ConfigError};
use crate::order::views;
use crate::text::{chars_of, concat_str, decimal, decimal_vec, extend_vec, owned, str_eq, string_of};

verus! {

/// The newest backup format this build reads.
pub const BACKUP_VERSION: u32 = 2;

/// A tool that a skill was synced to, as recorded in a backup.
#[derive(Debug, Clone)]
pub struct SkillTargetBackupDetails {
    pub tool: String,
    pub scope: String,
    pub project_path: Option<String>,
}

/// A target entry: current backups carry the details, the first format only
/// the tool name.
#[derive(Debug, Clone)]
pub enum SkillTargetBackupEntry {
    Detailed(SkillTargetBackupDetails),
    Legacy(String),
}

/// One managed skill captured for backup, with what it takes to install it
/// again.
#[derive(Debug, Clone)]
pub struct SkillBackupEntry {
    pub id: String,
    pub name: String,
    pub source_type: String,
    pub source_ref: Option<String>,
    pub targets: Vec<SkillTargetBackupEntry>,
}

/// A database image: its encoding, the SHA-256 of the raw bytes in
/// lowercase hex, and the encoded bytes.
#[derive(Debug, Clone)]
pub struct DatabaseSnapshot {
    pub encoding: String,
    pub sha256: String,
    pub bytes: String,
}

/// The combined backup.
#[derive(Debug, Clone)]
pub struct FullBackup {
    pub backup_version: u32,
    pub config: AppConfig,
    pub skills: Vec<SkillBackupEntry>,
    pub database: Option<DatabaseSnapshot>,
    pub exported_at: String,
}

/// What a restore did: what was installed, skipped or failed.
#[derive(Debug, Clone)]
pub struct RestoreReport {
    pub backup_version: u32,
    pub database_restored: bool,
    pub installed: Vec<String>,
    pub skipped: Vec<(String, String)>,
    pub failed: Vec<(String, String)>,
}

/// The scope a detailed target defaults to when a backup omits it.
pub fn default_target_scope() -> (r: String)
    ensures
        r@ == "global"@,
{
    owned("global")
}

/// The tool, scope and project path of a target entry; a legacy entry is
/// a global target.
pub open spec fn spec_parts(t: SkillTargetBackupEntry) -> (Seq<char>, Seq<char>, Option<Seq<char>>) {
    match t {
        SkillTargetBackupEntry::Detailed(d) => (d.tool@, d.scope@, opt_view(d.project_path)),
        SkillTargetBackupEntry::Legacy(tool) => (tool@, "global"@, None),
    }
}

impl SkillTargetBackupEntry {
    /// The tool, scope and project path of this target.
    pub fn parts(&self) -> (r: (String, String, Option<String>))
        ensures
            (r.0@, r.1@, opt_view(r.2)) == spec_parts(*self),
    {
        match self {
            SkillTargetBackupEntry::Detailed(d) => (d.tool.clone(), d.scope.clone(), crate::text::copy_opt(&d.project_path)),
            SkillTargetBackupEntry::Legacy(tool) => (tool.clone(), owned("global"), None),
        }
    }
}

pub open spec fn spec_summary(installed: nat, skipped: nat, failed: nat) -> Seq<char> {
    "installed "@ + decimal(installed) + ", skipped "@ + decimal(skipped) + ", failed "@ + decimal(failed)
}

impl RestoreReport {
    /// A report for a backup of the given version with nothing done yet.
    pub fn new(backup_version: u32) -> (r: RestoreReport)
        ensures
            r.backup_version == backup_version,
            !r.database_restored,
            r.installed@.len() == 0,
            r.skipped@.len() == 0,
            r.failed@.len() == 0,
    {
        RestoreReport {
            backup_version,
            database_restored: false,
            installed: Vec::new(),
            skipped: Vec::new(),
            failed: Vec::new(),
        }
    }

    /// One line for people, such as `installed 3, skipped 1, failed 0`.
    pub fn summary(&self) -> (r: String)
        ensures
            r@ == spec_summary(self.installed@.len(), self.skipped@.len(), self.failed@.len()),
    {
        let mut v = chars_of("installed ");
        extend_vec(&mut v, &decimal_vec(self.installed.len() as u64));
        extend_vec(&mut v, &chars_of(", skipped "));
        extend_vec(&mut v, &decimal_vec(self.skipped.len() as u64));
        extend_vec(&mut v, &chars_of(", failed "));
        extend_vec(&mut v, &decimal_vec(self.failed.len() as u64));
        string_of(&v)
    }
}

/// Why a backup was refused.
#[derive(Debug, Clone)]
pub enum BackupError {
    /// The configuration inside the backup is invalid.
    Config(ConfigError),
    /// Written by a newer backup format.
    NewerBackup { found: u32 },
    /// The database image uses an encoding other than base64.
    UnsupportedEncoding { encoding: String },
    /// The database image does not decode.
    SnapshotDecode,
    /// The decoded image does not match its checksum.
    ChecksumMismatch,
}

pub open spec fn spec_backup_error_message(e: BackupError) -> Seq<char> {
    match e {
        BackupError::Config(c) => crate::app_config::spec_config_error_message(c),
        BackupError::NewerBackup { found } => "备份文件版本 v"@ + decimal(found as nat) + " 高于当前支持版本 v2"@,
        BackupError::UnsupportedEncoding { encoding } => "不支持的数据库快照编码: "@ + encoding@,
        BackupError::SnapshotDecode => "解码数据库快照失败"@,
        BackupError::ChecksumMismatch => "数据库快照 SHA256 校验失败"@,
    }
}

impl BackupError {
    /// The user-facing message for this error.
    pub fn message(&self) -> (r: String)
        ensures
            r@ == spec_backup_error_message(*self),
    {
        match self {
            BackupError::Config(c) => c.message(),
            BackupError::NewerBackup { found } => {
                let mut v = chars_of("备份文件版本 v");
                extend_vec(&mut v, &decimal_vec(*found as u64));
                extend_vec(&mut v, &chars_of(" 高于当前支持版本 v2"));
                string_of(&v)
            },
            BackupError::UnsupportedEncoding { encoding } => concat_str("不支持的数据库快照编码: ", encoding.as_str()),
            BackupError::SnapshotDecode => owned("解码数据库快照失败"),
            BackupError::ChecksumMismatch => owned("数据库快照 SHA256 校验失败"),
        }
    }
}

/// The checks a parsed backup must pass: its configuration, then its
/// format version.
pub open spec fn spec_validate_backup(b: FullBackup) -> Result<(), BackupError> {
    match crate::app_config::spec_validate(b.config) {
        Err(e) => Err(BackupError::Config(e)),
        Ok(()) => if b.backup_version > BACKUP_VERSION {
            Err(BackupError::NewerBackup { found: b.backup_version })
        } else {
            Ok(())
        },
    }
}

/// Check a parsed backup before it is restored.
pub fn validate_full_backup(backup: &FullBackup) -> (r: Result<(), BackupError>)
    ensures
        r == spec_validate_backup(*backup),
{
    match backup.config.validate() {
        Err(e) => Err(BackupError::Config(e)),
        Ok(()) => if backup.backup_version > BACKUP_VERSION {
            Err(BackupError::NewerBackup { found: backup.backup_version })
        } else {
            Ok(())
        },
    }
}

/// The lowercase hex digit of a value below sixteen.
pub open spec fn hex_digit(d: int) -> char {
    if d < 10 { (d + 48) as char } else { (d - 10 + 97) as char }
}

/// Bytes in lowercase hex, two digits per byte, high nibble first.
pub open spec fn hex_lower(b: Seq<u8>) -> Seq<char>
    decreases b.len(),
{
    if b.len() == 0 {
        Seq::empty()
    } else {
        hex_lower(b.drop_last()) + seq![hex_digit(b.last() as int / 16), hex_digit(b.last() as int % 16)]
    }
}

/// What `Sha256::digest` of the sha2 crate gives for the bytes.
pub uninterp spec fn sha256(bytes: Seq<u8>) -> Seq<u8>;

/// What the standard base64 engine of the base64 crate encodes the bytes as.
pub uninterp spec fn base64_text(bytes: Seq<u8>) -> Seq<char>;

/// What the standard base64 engine of the base64 crate decodes the text to,
/// or `None` where it reports an error.
pub uninterp spec fn base64_bytes(text: Seq<char>) -> Option<Seq<u8>>;

/// `sha2::Sha256::digest`: the 32-byte SHA-256 digest of the bytes.
#[verifier::external_body]
pub(crate) fn sha256_digest(bytes: &[u8]) -> (r: Vec<u8>)
    ensures
        r@ == sha256(bytes@),
        r@.len() == 32,
{
    sha2::Sha256::digest(bytes).to_vec()
}

/// `hex::encode`: the bytes in lowercase hex, two digits per byte, as its
/// documentation states.
#[verifier::external_body]
pub(crate) fn hex_encode(bytes: &[u8]) -> (r: String)
    ensures
        r@ == hex_lower(bytes@),
{
    hex::encode(bytes)
}

/// `Engine::encode` of the standard base64 engine. Decoding its output with
/// the same engine gives the bytes back. The encoded length must fit in
/// memory, which the bound on the input ensures.
#[verifier::external_body]
fn base64_encode(bytes: &[u8]) -> (r: String)
    requires
        bytes@.len() < usize::MAX / 2,
    ensures
        r@ == base64_text(bytes@),
        base64_bytes(r@) == Some(bytes@),
{
    base64::engine::general_purpose::STANDARD.encode(bytes)
}

/// `Engine::decode` of the standard base64 engine, `None` on its error.
#[verifier::external_body]
fn base64_decode(text: &str) -> (r: Option<Vec<u8>>)
    ensures
        match r {
            Some(b) => base64_bytes(text@) == Some(b@),
            None => base64_bytes(text@) is None,
        },
{
    base64::engine::general_purpose::STANDARD.decode(text).ok()
}

pub open spec fn bytes_result(r: Result<Vec<u8>, BackupError>) -> Result<Seq<u8>, BackupError> {
    match r {
        Ok(b) => Ok(b@),
        Err(e) => Err(e),
    }
}

/// What checking a database image gives: its raw bytes when the encoding
/// is base64, the text decodes and the checksum matches.
pub open spec fn spec_verify_snapshot(db: DatabaseSnapshot) -> Result<Seq<u8>, BackupError> {
    if db.encoding@ != "base64"@ {
        Err(BackupError::UnsupportedEncoding { encoding: db.encoding })
    } else {
        match base64_bytes(db.bytes@) {
            None => Err(BackupError::SnapshotDecode),
            Some(b) => if hex_lower(sha256(b)) == db.sha256@ {
                Ok(b)
            } else {
                Err(BackupError::ChecksumMismatch)
            },
        }
    }
}

/// Check a database image and decode it.
pub fn verify_snapshot(db: &DatabaseSnapshot) -> (r: Result<Vec<u8>, BackupError>)
    ensures
        bytes_result(r) == spec_verify_snapshot(*db),
{
    if !str_eq(db.encoding.as_str(), "base64") {
        return Err(BackupError::UnsupportedEncoding { encoding: db.encoding.clone() });
    }
    match base64_decode(db.bytes.as_str()) {
        None => Err(BackupError::SnapshotDecode),
        Some(bytes) => {
            let checksum = hex_encode(&sha256_digest(&bytes));
            if str_eq(checksum.as_str(), db.sha256.as_str()) {
                Ok(bytes)
            } else {
                Err(BackupError::ChecksumMismatch)
            }
        },
    }
}

/// A database image of the bytes: base64 text with the hex SHA-256 of the
/// raw bytes. Checking the image gives the bytes back.
pub fn snapshot_of(bytes: &[u8]) -> (r: DatabaseSnapshot)
    requires
        bytes@.len() < usize::MAX / 2,
    ensures
        r.encoding@ == "base64"@,
        r.sha256@ == hex_lower(sha256(bytes@)),
        r.bytes@ == base64_text(bytes@),
        spec_verify_snapshot(r) == Ok::<Seq<u8>, BackupError>(bytes@),
{
    let digest = sha256_digest(bytes);
    DatabaseSnapshot { encoding: owned("base64"), sha256: hex_encode(&digest), bytes: base64_encode(bytes) }
}


pub open spec fn pair_views(v: Seq<(String, String)>) -> Seq<(Seq<char>, Seq<char>)> {
    v.map_values(|p: (String, String)| (p.0@, p.1@))
}

/// How restoring one skill of a backup begins.
#[derive(Debug, Clone)]
pub enum RestoreAction {
    /// Already installed under this id: only its targets are synced again.
    UseExisting { skill_id: String },
    /// Install from this Git URL.
    InstallGit { url: String },
    /// Install from this package reference.
    InstallPackage { source_ref: String },
    /// Nothing to install; the report says why.
    Nothing,
}

/// The id under which a skill named `name` is installed: the last of the
/// `(name, id)` pairs with that name.
pub open spec fn spec_existing_id(pairs: Seq<(Seq<char>, Seq<char>)>, name: Seq<char>) -> Option<Seq<char>>
    decreases pairs.len(),
{
    if pairs.len() == 0 {
        None
    } else if pairs.last().0 == name {
        Some(pairs.last().1)
    } else {
        spec_existing_id(pairs.drop_last(), name)
    }
}

/// The id of the installed skill named `name`, if any.
pub fn existing_skill_id(installed: &Vec<(String, String)>, name: &str) -> (r: Option<String>)
    ensures
        opt_view(r) == spec_existing_id(pair_views(installed@), name@),
{
    let ghost pv = pair_views(installed@);
    let mut i: usize = installed.len();
    assert(pv.take(i as int) =~= pv);
    while i > 0
        invariant
            i <= installed@.len(),
            pv == pair_views(installed@),
            spec_existing_id(pv, name@) == spec_existing_id(pv.take(i as int), name@),
        decreases i,
    {
        let ghost t = pv.take(i as int);
        assert(t.last() == pv[i - 1]);
        assert(t.drop_last() =~= pv.take(i - 1));
        if str_eq(installed[i - 1].0.as_str(), name) {
            return Some(installed[i - 1].1.clone());
        }
        i = i - 1;
    }
    None
}

/// What planning the restore of `entry` does to the report and returns.
pub open spec fn spec_plan(
    entry: SkillBackupEntry,
    existing_id: Option<String>,
    skipped: Seq<(Seq<char>, Seq<char>)>,
    failed: Seq<(Seq<char>, Seq<char>)>,
) -> (RestoreAction, Seq<(Seq<char>, Seq<char>)>, Seq<(Seq<char>, Seq<char>)>) {
    let name = entry.name@;
    match existing_id {
        Some(id) => (RestoreAction::UseExisting { skill_id: id }, skipped.push((name, "已存在，仅恢复同步目标"@)), failed),
        None => if entry.source_type@ == "git"@ {
            match entry.source_ref {
                Some(url) => (RestoreAction::InstallGit { url }, skipped, failed),
                None => (RestoreAction::Nothing, skipped, failed.push((name, "缺少 git 源地址"@))),
            }
        } else if entry.source_type@ == "package"@ {
            match entry.source_ref {
                Some(r) => (RestoreAction::InstallPackage { source_ref: r }, skipped, failed),
                None => (RestoreAction::Nothing, skipped, failed.push((name, "缺少 package 源"@))),
            }
        } else {
            (RestoreAction::Nothing, skipped.push((name, "本地技能无法远程同步"@)), failed)
        },
    }
}

/// How an install attempt went.
#[derive(Debug, Clone)]
pub enum InstallOutcome {
    Installed { skill_id: String },
    Failed { error: String },
    BadPackageRef { error: String },
}

impl RestoreReport {
    /// Decide how to restore one skill of a backup, noting in the report a
    /// skill that is kept or cannot be installed.
    pub fn plan_entry(&mut self, entry: &SkillBackupEntry, existing_id: Option<String>) -> (r: RestoreAction)
        ensures
            (r, pair_views(final(self).skipped@), pair_views(final(self).failed@)) == spec_plan(
                *entry,
                existing_id,
                pair_views(old(self).skipped@),
                pair_views(old(self).failed@),
            ),
            final(self).installed@ == old(self).installed@,
            final(self).backup_version == old(self).backup_version,
            final(self).database_restored == old(self).database_restored,
    {
        let ghost sk = pair_views(self.skipped@);
        let ghost fl = pair_views(self.failed@);
        match existing_id {
            Some(id) => {
                self.skipped.push((entry.name.clone(), owned("已存在，仅恢复同步目标")));
                assert(pair_views(self.skipped@) =~= sk.push((entry.name@, "已存在，仅恢复同步目标"@)));
                RestoreAction::UseExisting { skill_id: id }
            },
            None => {
                if str_eq(entry.source_type.as_str(), "git") {
                    match &entry.source_ref {
                        Some(url) => RestoreAction::InstallGit { url: url.clone() },
                        None => {
                            self.failed.push((entry.name.clone(), owned("缺少 git 源地址")));
                            assert(pair_views(self.failed@) =~= fl.push((entry.name@, "缺少 git 源地址"@)));
                            RestoreAction::Nothing
                        },
                    }
                } else if str_eq(entry.source_type.as_str(), "package") {
                    match &entry.source_ref {
                        Some(r) => RestoreAction::InstallPackage { source_ref: r.clone() },
                        None => {
                            self.failed.push((entry.name.clone(), owned("缺少 package 源")));
                            assert(pair_views(self.failed@) =~= fl.push((entry.name@, "缺少 package 源"@)));
                            RestoreAction::Nothing
                        },
                    }
                } else {
                    self.skipped.push((entry.name.clone(), owned("本地技能无法远程同步")));
                    assert(pair_views(self.skipped@) =~= sk.push((entry.name@, "本地技能无法远程同步"@)));
                    RestoreAction::Nothing
                }
            },
        }
    }

    /// Note how installing the skill `name` went; the id of the installed
    /// skill, if it was installed.
    pub fn record_install(&mut self, name: &str, outcome: InstallOutcome) -> (r: Option<String>)
        ensures
            final(self).skipped@ == old(self).skipped@,
            final(self).backup_version == old(self).backup_version,
            final(self).database_restored == old(self).database_restored,
            match outcome {
                InstallOutcome::Installed { skill_id } => r == Some(skill_id)
                    && views(final(self).installed@) == views(old(self).installed@).push(name@)
                    && final(self).failed@ == old(self).failed@,
                InstallOutcome::Failed { error } => r is None
                    && final(self).installed@ == old(self).installed@
                    && pair_views(final(self).failed@) == pair_views(old(self).failed@).push((name@, error@)),
                InstallOutcome::BadPackageRef { error } => r is None
                    && final(self).installed@ == old(self).installed@
                    && pair_views(final(self).failed@) == pair_views(old(self).failed@).push(
                    (name@, "解析包源失败: "@ + error@),
                ),
            },
    {
        let ghost inst = views(self.installed@);
        let ghost fl = pair_views(self.failed@);
        match outcome {
            InstallOutcome::Installed { skill_id } => {
                self.installed.push(owned(name));
                assert(views(self.installed@) =~= inst.push(name@));
                Some(skill_id)
            },
            InstallOutcome::Failed { error } => {
                let ghost e = error@;
                self.failed.push((owned(name), error));
                assert(pair_views(self.failed@) =~= fl.push((name@, e)));
                None
            },
            InstallOutcome::BadPackageRef { error } => {
                let msg = concat_str("解析包源失败: ", error.as_str());
                self.failed.push((owned(name), msg));
                assert(pair_views(self.failed@) =~= fl.push((name@, "解析包源失败: "@ + error@)));
                None
            },
        }
    }

    /// Note that syncing the restored skill `name` to `tool` failed.
    pub fn record_target_failure(&mut self, name: &str, tool: &str, error: &str)
        ensures
            final(self).skipped@ == old(self).skipped@,
            final(self).installed@ == old(self).installed@,
            final(self).backup_version == old(self).backup_version,
            final(self).database_restored == old(self).database_restored,
            pair_views(final(self).failed@) == pair_views(old(self).failed@).push(
                (name@ + " → "@ + tool@, "恢复同步目标失败: "@ + error@),
            ),
    {
        let ghost fl = pair_views(self.failed@);
        let mut what = chars_of(name);
        extend_vec(&mut what, &chars_of(" → "));
        extend_vec(&mut what, &chars_of(tool));
        let why = concat_str("恢复同步目标失败: ", error);
        self.failed.push((string_of(&what), why));
        assert(pair_views(self.failed@) =~= fl.push((name@ + " → "@ + tool@, "恢复同步目标失败: "@ + error@)));
    }
}

} // verus!
