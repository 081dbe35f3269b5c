//! The decisions of a profile synchronization: which profile this device
//! belongs to, what the report says, what applying a merged profile does
//! to each skill, and how the published profile is stamped.

use vstd::prelude::*;
use crate::app_config::opt_view;
use crate::backup::pair_views;
use crate::merge::{doc_view, ref_view};
use crate::order::views;
use crate::profile::{
    conflict_views, document_semantic_equal, lookup, skill_views, spec_stable_skill_key, stable_skill_key,
    strategy_name, ConflictStrategy, ConflictV, DocV, ProfileConflict, ProfileDocument, ProfileOriginOverride,
    ProfileSkill, ProfileSyncReport, SkillV,
};
use crate::records::{OriginV, SkillOriginRecord, SkillRecord};
use crate::text::{chars_of, concat_str, extend_vec, owned, str_eq, string_of};

verus! {

/// The settings key of the profile this device belongs to.
pub const PROFILE_ID_KEY: &'static str = "profile_sync_profile_id_v1";

/// The settings key of this device's id.
pub const PROFILE_DEVICE_ID_KEY: &'static str = "profile_sync_device_id_v1";

/// The settings key of the profile last synchronized, the base of the next
/// three-way merge.
pub const PROFILE_BASE_KEY: &'static str = "profile_sync_base_v1";

/// The settings key of the remote profile's entity tag.
pub const PROFILE_ETAG_KEY: &'static str = "profile_sync_etag_v1";


/// Text in the hyphenated form of a UUID: 36 characters, `-` at positions
/// 8, 13, 18 and 23, lowercase hexadecimal digits everywhere else.
pub open spec fn is_uuid_text(s: Seq<char>) -> bool {
    &&& s.len() == 36
    &&& forall|i: int| 0 <= i < 36 ==> if i == 8 || i == 13 || i == 18 || i == 23 {
        #[trigger] s[i] == '-'
    } else {
        ('0' <= s[i] && s[i] <= '9') || ('a' <= s[i] && s[i] <= 'f')
    }
}

/// `uuid::Uuid::new_v4` written out: a fresh random identifier in the
/// hyphenated, lowercase form `Uuid`'s `Display` prints. Which identifier
/// it is depends on chance and is not stated.
#[verifier::external_body]
pub(crate) fn new_profile_id() -> (r: String)
    ensures
        is_uuid_text(r@),
{
    uuid::Uuid::new_v4().to_string()
}

/// The profile this device belongs to: the remote one, else the one of
/// the last synchronized base, else the one stored on this device, else
/// `fresh`.
pub open spec fn spec_profile_id(
    remote: Option<Seq<char>>,
    base: Option<Seq<char>>,
    stored: Option<Seq<char>>,
    fresh: Seq<char>,
) -> Seq<char> {
    match remote {
        Some(r) => r,
        None => match base {
            Some(b) => b,
            None => match stored {
                Some(s) => s,
                None => fresh,
            },
        },
    }
}

/// The value stored under `key` when it is not blank; otherwise a fresh
/// random identifier, which is stored under `key` from then on.
pub fn get_or_create_setting(store: &mut crate::settings::Settings, key: &str) -> (r: String)
    ensures
        match old(store).value_of(key@) {
            Some(v) if crate::text::trim(v).len() > 0 => r@ == v && *final(store) == *old(store),
            _ => final(store).value_of(key@) == Some(r@) && is_uuid_text(r@)
                && forall|k: Seq<char>| k != key@ ==> final(store).value_of(k) == old(store).value_of(k),
        },
{
    if let Some(value) = store.get(key) {
        if !crate::text::is_blank(value.as_str()) {
            return value;
        }
    }
    let value = new_profile_id();
    store.set(key, value.as_str());
    value
}

/// Choose the profile this device belongs to, making a new id only when
/// nothing names one.
pub fn choose_profile_id(remote: Option<String>, base: Option<String>, stored: Option<String>) -> (r: String)
    ensures
        remote is Some || base is Some || stored is Some ==> r@ == spec_profile_id(
            opt_view(remote),
            opt_view(base),
            opt_view(stored),
            Seq::empty(),
        ),
        exists|fresh: Seq<char>| r@ == #[trigger] spec_profile_id(opt_view(remote), opt_view(base), opt_view(stored), fresh),
        remote is None && base is None && stored is None ==> is_uuid_text(r@),
{
    let ghost rv = opt_view(remote);
    let ghost bv = opt_view(base);
    let ghost sv = opt_view(stored);
    let r = match remote {
        Some(r) => r,
        None => match base {
            Some(b) => b,
            None => match stored {
                Some(s) => s,
                None => new_profile_id(),
            },
        },
    };
    proof {
        if rv is Some || bv is Some || sv is Some {
            assert(r@ == spec_profile_id(rv, bv, sv, Seq::empty()));
        } else {
            assert(r@ == spec_profile_id(rv, bv, sv, r@));
        }
    }
    r
}

/// Why a synchronization stopped.
#[derive(Debug, Clone)]
pub enum SyncError {
    /// WebDAV is not configured.
    WebDavMissing,
    /// The remote profile belongs to another profile than this device.
    RemoteProfileMismatch,
    /// An imported profile belongs to another profile than this device.
    ImportProfileMismatch,
    /// A profile names a source type that cannot be installed.
    UnsupportedSource { source_type: String },
}

pub open spec fn spec_sync_error_message(e: SyncError) -> Seq<char> {
    match e {
        SyncError::WebDavMissing => "WebDAV 未配置"@,
        SyncError::RemoteProfileMismatch => "远端 Profile ID 与本机绑定不一致"@,
        SyncError::ImportProfileMismatch => "Profile ID 与当前设备绑定不一致"@,
        SyncError::UnsupportedSource { source_type } => "Profile 包含不可同步来源类型: "@ + source_type@,
    }
}

impl SyncError {
    /// The user-facing message for this error.
    pub fn message(&self) -> (r: String)
        ensures
            r@ == spec_sync_error_message(*self),
    {
        match self {
            SyncError::WebDavMissing => owned("WebDAV 未配置"),
            SyncError::RemoteProfileMismatch => owned("远端 Profile ID 与本机绑定不一致"),
            SyncError::ImportProfileMismatch => owned("Profile ID 与当前设备绑定不一致"),
            SyncError::UnsupportedSource { source_type } => concat_str(
                "Profile 包含不可同步来源类型: ",
                source_type.as_str(),
            ),
        }
    }
}

/// The remote profile must be the device's own.
pub fn check_remote_profile(remote: Option<&ProfileDocument>, profile_id: &str) -> (r: Result<(), SyncError>)
    ensures
        r is Ok <==> (remote is None || remote.unwrap().profile_id@ == profile_id@),
        r is Err ==> r == Err::<(), SyncError>(SyncError::RemoteProfileMismatch),
{
    match remote {
        Some(d) => if str_eq(d.profile_id.as_str(), profile_id) {
            Ok(())
        } else {
            Err(SyncError::RemoteProfileMismatch)
        },
        None => Ok(()),
    }
}

/// The base profile can serve for a three-way merge only when it belongs
/// to the same profile.
pub fn usable_base<'a>(base: Option<&'a ProfileDocument>, profile_id: &str) -> (r: Option<&'a ProfileDocument>)
    ensures
        r == (match base {
            Some(b) => if b.profile_id@ == profile_id@ { Some(b) } else { None },
            None => None,
        }),
{
    match base {
        Some(b) => if str_eq(b.profile_id.as_str(), profile_id) { Some(b) } else { None },
        None => None,
    }
}

/// A report of a synchronization before anything was applied.
pub fn new_sync_report(
    profile_id: &str,
    device_id: &str,
    remote_found: bool,
    changed: bool,
    conflicts: Vec<ProfileConflict>,
    strategy: ConflictStrategy,
    skipped_local: Vec<String>,
) -> (r: ProfileSyncReport)
    ensures
        r.profile_id@ == profile_id@,
        r.device_id@ == device_id@,
        r.remote_found == remote_found,
        !r.uploaded,
        r.changed == changed,
        r.conflicts == conflicts,
        r.conflict_strategy@ == strategy_name(strategy),
        r.conflicts_resolved == (strategy != ConflictStrategy::Abort),
        r.skipped_local == skipped_local,
        r.installed@.len() == 0 && r.updated@.len() == 0 && r.deleted@.len() == 0,
        r.pending_deletions@.len() == 0 && r.synced_targets@.len() == 0 && r.removed_targets@.len() == 0,
        r.failures@.len() == 0,
{
    let resolved = match strategy {
        ConflictStrategy::Abort => false,
        _ => true,
    };
    ProfileSyncReport {
        profile_id: owned(profile_id),
        device_id: owned(device_id),
        remote_found,
        uploaded: false,
        changed,
        conflicts,
        conflict_strategy: owned(strategy.as_str()),
        conflicts_resolved: resolved,
        installed: Vec::new(),
        updated: Vec::new(),
        deleted: Vec::new(),
        pending_deletions: Vec::new(),
        synced_targets: Vec::new(),
        removed_targets: Vec::new(),
        skipped_local,
        failures: Vec::new(),
    }
}

/// Whether the merged profile differs from the remote one (always, when
/// there is no remote profile).
pub fn remote_changed(merged: &ProfileDocument, remote: Option<&ProfileDocument>) -> (r: bool)
    ensures
        r == (match remote {
            Some(d) => !(merged@.profile_id == d@.profile_id && merged@.config == d@.config && merged@.skills
                == d@.skills),
            None => true,
        }),
{
    match remote {
        Some(d) => !document_semantic_equal(merged, d),
        None => true,
    }
}

/// Whether a synchronization stops before applying anything: on a dry
/// run, or on conflicts that the strategy leaves unresolved.
pub fn stops_before_apply(dry_run: bool, report: &ProfileSyncReport, strategy: ConflictStrategy) -> (r: bool)
    ensures
        r == (dry_run || (report.conflicts@.len() > 0 && strategy == ConflictStrategy::Abort)),
{
    let abort = match strategy {
        ConflictStrategy::Abort => true,
        _ => false,
    };
    dry_run || (report.conflicts.len() > 0 && abort)
}

/// Stamp a merged profile before it is published: the next generation
/// after the remote's and the base's, by this device, now.
pub fn stamp_published(
    merged: &mut ProfileDocument,
    remote_generation: Option<u64>,
    base_generation: Option<u64>,
    device_id: &str,
    now: i64,
)
    requires
        (match remote_generation {
            Some(g) => g,
            None => 0,
        }) < u64::MAX,
        (match base_generation {
            Some(g) => g,
            None => 0,
        }) < u64::MAX,
    ensures
        final(merged)@ == (DocV {
            generation: (1 + ({
                let r = match remote_generation {
                    Some(g) => g,
                    None => 0,
                };
                let b = match base_generation {
                    Some(g) => g,
                    None => 0,
                };
                if r >= b { r } else { b }
            })) as u64,
            updated_at: now,
            updated_by: device_id@,
            ..old(merged)@
        }),
{
    let r = match remote_generation {
        Some(g) => g,
        None => 0,
    };
    let b = match base_generation {
        Some(g) => g,
        None => 0,
    };
    merged.generation = (if r >= b { r } else { b }) + 1;
    merged.updated_at = now;
    merged.updated_by = owned(device_id);
}

/// The import of a profile must match the profile this device belongs to.
pub fn check_import_profile(base: Option<&ProfileDocument>, imported: &ProfileDocument) -> (r: Result<(), SyncError>)
    ensures
        r is Ok <==> (base is None || base.unwrap().profile_id@ == imported.profile_id@),
        r is Err ==> r == Err::<(), SyncError>(SyncError::ImportProfileMismatch),
{
    match base {
        Some(b) => if str_eq(b.profile_id.as_str(), imported.profile_id.as_str()) {
            Ok(())
        } else {
            Err(SyncError::ImportProfileMismatch)
        },
        None => Ok(()),
    }
}

/// The origin record that restores a profile's origin override for a
/// skill: a manual override, at time `now`.
pub open spec fn spec_override_origin(skill_id: Seq<char>, o: crate::profile::OverrideV, now: i64) -> OriginV {
    OriginV {
        skill_id,
        origin_kind: o.origin_kind,
        origin_role: o.origin_role,
        provider: o.provider,
        remote_url: o.remote_url,
        owner: o.owner,
        repo: o.repo,
        branch: o.branch,
        subpath: o.subpath,
        update_strategy: o.update_strategy,
        publish_strategy: o.publish_strategy,
        manual_override: true,
        reason: Some("restored from synchronized profile"@),
        updated_at: now,
    }
}

/// The origin record restoring a profile's origin override.
pub fn override_origin_record(skill_id: &str, o: &ProfileOriginOverride, now: i64) -> (r: SkillOriginRecord)
    ensures
        r@ == spec_override_origin(skill_id@, o@, now),
{
    SkillOriginRecord {
        skill_id: owned(skill_id),
        origin_kind: o.origin_kind.clone(),
        origin_role: o.origin_role.clone(),
        provider: crate::text::copy_opt(&o.provider),
        remote_url: crate::text::copy_opt(&o.remote_url),
        owner: crate::text::copy_opt(&o.owner),
        repo: crate::text::copy_opt(&o.repo),
        branch: crate::text::copy_opt(&o.branch),
        subpath: crate::text::copy_opt(&o.subpath),
        update_strategy: o.update_strategy.clone(),
        publish_strategy: o.publish_strategy.clone(),
        manual_override: true,
        reason: Some(owned("restored from synchronized profile")),
        updated_at: now,
    }
}


/// The installed skill a profile key refers to among the first `n`
/// records: the last one with that key.
pub open spec fn existing_record(records: Seq<SkillRecord>, k: Seq<char>, n: int) -> Option<SkillRecord>
    decreases n,
{
    if n <= 0 {
        None
    } else if spec_stable_skill_key(records[n - 1]) == Some(k) {
        Some(records[n - 1])
    } else {
        existing_record(records, k, n - 1)
    }
}

fn copy_record(r: &SkillRecord) -> (c: SkillRecord)
    ensures
        c == *r,
{
    SkillRecord {
        id: r.id.clone(),
        name: r.name.clone(),
        description: crate::text::copy_opt(&r.description),
        source_type: r.source_type.clone(),
        source_ref: crate::text::copy_opt(&r.source_ref),
        source_subpath: crate::text::copy_opt(&r.source_subpath),
        source_revision: crate::text::copy_opt(&r.source_revision),
        central_path: r.central_path.clone(),
        content_hash: crate::text::copy_opt(&r.content_hash),
        created_at: r.created_at,
        updated_at: r.updated_at,
        last_sync_at: r.last_sync_at,
        last_seen_at: r.last_seen_at,
        status: r.status.clone(),
    }
}

/// The last index below `n` holding `k`, or -1.
pub open spec fn key_index(ks: Seq<Seq<char>>, k: Seq<char>, n: int) -> int
    decreases n,
{
    if n <= 0 {
        -1
    } else if ks[n - 1] == k {
        n - 1
    } else {
        key_index(ks, k, n - 1)
    }
}

proof fn lemma_key_index(ks: Seq<Seq<char>>, k: Seq<char>, n: int)
    requires
        0 <= n <= ks.len(),
    ensures
        key_index(ks, k, n) == -1 || (0 <= key_index(ks, k, n) < n && ks[key_index(ks, k, n)] == k),
        (forall|j: int| 0 <= j < n ==> ks[j] != k) ==> key_index(ks, k, n) == -1,
    decreases n,
{
    if n > 0 {
        lemma_key_index(ks, k, n - 1);
    }
}

proof fn lemma_key_index_unique(ks: Seq<Seq<char>>, idx: int, n: int)
    requires
        crate::order::sorted_strict(ks),
        0 <= idx < n <= ks.len(),
    ensures
        key_index(ks, ks[idx], n) == idx,
    decreases n,
{
    if n - 1 > idx {
        assert(crate::order::seq_lt(ks[idx], ks[n - 1]));
        if ks[n - 1] == ks[idx] {
            crate::order::lemma_lt_irreflexive(ks[idx]);
        }
        lemma_key_index_unique(ks, idx, n - 1);
    }
}

/// The installed skills by profile key.
pub struct InstalledIndex {
    keys: Vec<String>,
    records: Vec<SkillRecord>,
}

impl InstalledIndex {
    pub closed spec fn wf(&self) -> bool {
        crate::order::sorted_strict(views(self.keys@)) && self.keys@.len() == self.records@.len()
    }

    /// The installed skill under profile key `k`.
    pub closed spec fn entry(&self, k: Seq<char>) -> Option<SkillRecord> {
        let j = key_index(views(self.keys@), k, self.keys@.len() as int);
        if j >= 0 { Some(self.records@[j]) } else { None }
    }

    proof fn lemma_entry_none(&self, k: Seq<char>)
        requires
            forall|j: int| 0 <= j < self.keys@.len() ==> #[trigger] self.keys@[j]@ != k,
        ensures
            self.entry(k) is None,
    {
        lemma_key_index(views(self.keys@), k, self.keys@.len() as int);
    }

    /// Index the installed skills that a profile can carry by their key.
    pub fn build(records: &Vec<SkillRecord>) -> (r: InstalledIndex)
        ensures
            r.wf(),
            forall|k: Seq<char>| #[trigger] r.entry(k) == existing_record(records@, k, records@.len() as int),
    {
        let mut idx = InstalledIndex { keys: Vec::new(), records: Vec::new() };
        let mut i: usize = 0;
        while i < records.len()
            invariant
                i <= records@.len(),
                idx.wf(),
                forall|k: Seq<char>| #[trigger] idx.entry(k) == existing_record(records@, k, i as int),
            decreases records.len() - i,
        {
            match stable_skill_key(&records[i]) {
                Some(key) => {
                    let ghost before = idx;
                    idx.put(key.as_str(), copy_record(&records[i]));
                    assert forall|k: Seq<char>| #[trigger] idx.entry(k) == existing_record(records@, k, i + 1) by {
                        if k != key@ {
                            assert(before.entry(k) == existing_record(records@, k, i as int));
                        }
                    }
                },
                None => {
                    assert forall|k: Seq<char>| #[trigger] idx.entry(k) == existing_record(records@, k, i + 1) by {
                        assert(existing_record(records@, k, i + 1) == existing_record(records@, k, i as int));
                    }
                },
            }
            i = i + 1;
        }
        idx
    }

    proof fn lemma_entry_at(&self, idx: int)
        requires
            self.wf(),
            0 <= idx < self.keys@.len(),
        ensures
            self.entry(self.keys@[idx]@) == Some(self.records@[idx]),
    {
        lemma_key_index_unique(views(self.keys@), idx, self.keys@.len() as int);
    }

    fn put(&mut self, key: &str, record: SkillRecord)
        requires
            old(self).wf(),
        ensures
            final(self).wf(),
            final(self).entry(key@) == Some(record),
            forall|k: Seq<char>| k != key@ ==> #[trigger] final(self).entry(k) == old(self).entry(k),
    {
        let ghost kv0 = views(self.keys@);
        let ghost old_self = *self;
        let kc = chars_of(key);
        let (pos, found) = crate::order::locate(&self.keys, &kc);
        if found {
            self.records.set(pos, record);
            proof {
                self.lemma_entry_at(pos as int);
                assert forall|k: Seq<char>| k != key@ implies #[trigger] self.entry(k) == old_self.entry(k) by {
                    if exists|j: int| 0 <= j < self.keys@.len() && #[trigger] self.keys@[j]@ == k {
                        let j = choose|j: int| 0 <= j < self.keys@.len() && #[trigger] self.keys@[j]@ == k;
                        assert(j != pos);
                        self.lemma_entry_at(j);
                        old_self.lemma_entry_at(j);
                    } else {
                        self.lemma_entry_none(k);
                        old_self.lemma_entry_none(k);
                    }
                }
            }
        } else {
            proof {
                crate::order::lemma_insert_sorted(kv0, pos as int, kc@);
            }
            self.keys.insert(pos, owned(key));
            self.records.insert(pos, record);
            proof {
                assert(views(self.keys@) =~= kv0.insert(pos as int, kc@));
                self.lemma_entry_at(pos as int);
                assert forall|k: Seq<char>| k != key@ implies #[trigger] self.entry(k) == old_self.entry(k) by {
                    if exists|j: int| 0 <= j < self.keys@.len() && #[trigger] self.keys@[j]@ == k {
                        let j = choose|j: int| 0 <= j < self.keys@.len() && #[trigger] self.keys@[j]@ == k;
                        self.lemma_entry_at(j);
                        if j < pos {
                            old_self.lemma_entry_at(j);
                        } else {
                            assert(j > pos);
                            old_self.lemma_entry_at(j - 1);
                        }
                    } else {
                        self.lemma_entry_none(k);
                        assert forall|j: int| 0 <= j < old_self.keys@.len() implies #[trigger] old_self.keys@[j]@ != k by {
                            if j < pos {
                                assert(self.keys@[j] == old_self.keys@[j]);
                            } else {
                                assert(self.keys@[j + 1] == old_self.keys@[j]);
                            }
                        }
                        old_self.lemma_entry_none(k);
                    }
                }
            }
        }
    }

    /// The installed skill under profile key `key`.
    pub fn get(&self, key: &str) -> (r: Option<&SkillRecord>)
        requires
            self.wf(),
        ensures
            match r {
                Some(x) => self.entry(key@) == Some(*x),
                None => self.entry(key@) is None,
            },
    {
        let kc = chars_of(key);
        let (pos, found) = crate::order::locate(&self.keys, &kc);
        if found {
            proof {
                self.lemma_entry_at(pos as int);
            }
            Some(&self.records[pos])
        } else {
            proof {
                let kv = views(self.keys@);
                assert forall|j: int| 0 <= j < self.keys@.len() implies #[trigger] self.keys@[j]@ != key@ by {
                    assert(kv[j] == self.keys@[j]@);
                    if j < pos {
                        assert(crate::order::seq_lt(kv[j], key@));
                    } else {
                        assert(crate::order::seq_lt(key@, kv[j]));
                    }
                    if kv[j] == key@ {
                        crate::order::lemma_lt_irreflexive(key@);
                    }
                }
                self.lemma_entry_none(key@);
            }
            None
        }
    }

    /// Forget the installed skill under profile key `key`.
    pub fn remove(&mut self, key: &str)
        requires
            old(self).wf(),
        ensures
            final(self).wf(),
            final(self).entry(key@) is None,
            forall|k: Seq<char>| k != key@ ==> #[trigger] final(self).entry(k) == old(self).entry(k),
    {
        let ghost old_self = *self;
        let ghost kv0 = views(self.keys@);
        let kc = chars_of(key);
        let (pos, found) = crate::order::locate(&self.keys, &kc);
        if found {
            self.keys.remove(pos);
            self.records.remove(pos);
            proof {
                assert(views(self.keys@) =~= kv0.remove(pos as int));
                assert(crate::order::sorted_strict(views(self.keys@))) by {
                    assert forall|a: int, b: int| 0 <= a < b < views(self.keys@).len() implies crate::order::seq_lt(
                        #[trigger] views(self.keys@)[a],
                        #[trigger] views(self.keys@)[b],
                    ) by {
                        let a0 = if a < pos { a } else { a + 1 };
                        let b0 = if b < pos { b } else { b + 1 };
                        assert(views(self.keys@)[a] == kv0[a0]);
                        assert(views(self.keys@)[b] == kv0[b0]);
                    }
                }
                assert forall|j: int| 0 <= j < self.keys@.len() implies #[trigger] self.keys@[j]@ != key@ by {
                    let j0 = if j < pos { j } else { j + 1 };
                    assert(kv0[j0] == self.keys@[j]@);
                    assert(kv0[pos as int] == key@);
                    if j0 < pos {
                        assert(crate::order::seq_lt(kv0[j0], kv0[pos as int]));
                    } else {
                        assert(crate::order::seq_lt(kv0[pos as int], kv0[j0]));
                    }
                    if kv0[j0] == key@ {
                        crate::order::lemma_lt_irreflexive(key@);
                    }
                }
                self.lemma_entry_none(key@);
                assert forall|k: Seq<char>| k != key@ implies #[trigger] self.entry(k) == old_self.entry(k) by {
                    if exists|j: int| 0 <= j < self.keys@.len() && #[trigger] self.keys@[j]@ == k {
                        let j = choose|j: int| 0 <= j < self.keys@.len() && #[trigger] self.keys@[j]@ == k;
                        self.lemma_entry_at(j);
                        let j0 = if j < pos { j } else { j + 1 };
                        assert(old_self.keys@[j0] == self.keys@[j]);
                        assert(old_self.records@[j0] == self.records@[j]);
                        old_self.lemma_entry_at(j0);
                    } else {
                        self.lemma_entry_none(k);
                        assert forall|j: int| 0 <= j < old_self.keys@.len() implies #[trigger] old_self.keys@[j]@ != k by {
                            if j < pos {
                                assert(self.keys@[j] == old_self.keys@[j]);
                            } else if j > pos {
                                assert(self.keys@[j - 1] == old_self.keys@[j]);
                            } else {
                                assert(kv0[pos as int] == key@);
                            }
                        }
                        old_self.lemma_entry_none(k);
                    }
                }
            }
        } else {
            proof {
                let kv = views(self.keys@);
                assert forall|j: int| 0 <= j < self.keys@.len() implies #[trigger] self.keys@[j]@ != key@ by {
                    assert(kv[j] == self.keys@[j]@);
                    if j < pos {
                        assert(crate::order::seq_lt(kv[j], key@));
                    } else {
                        assert(crate::order::seq_lt(key@, kv[j]));
                    }
                    if kv[j] == key@ {
                        crate::order::lemma_lt_irreflexive(key@);
                    }
                }
                self.lemma_entry_none(key@);
            }
        }
    }
}


/// How applying a profile begins for one desired skill.
#[derive(Debug, Clone)]
pub enum DesiredStep {
    /// A tombstone whose skill is installed here, with removal confirmed:
    /// remove it.
    Delete { record: SkillRecord },
    /// A tombstone whose skill is installed here, without confirmation:
    /// keep it and report the removal as pending.
    Pending { record: SkillRecord },
    /// A tombstone whose skill is not installed: nothing to do.
    Skip,
    /// Installed already: bring it up to date (first from its source, when
    /// `update`), then apply its tags, origin and targets.
    Refresh { record: SkillRecord, update: bool },
    /// Not installed: install it from the Git URL.
    InstallGit { url: String, name: String },
    /// Not installed: install it from the package reference.
    InstallPackage { source_ref: String, name: String },
}

/// Whether an installed skill follows its source on synchronization: a
/// Git skill whose profile policy is `latest` or `pinned`.
pub open spec fn spec_follows_source(desired: SkillV, record: SkillRecord) -> bool {
    (desired.update_policy == "latest"@ || desired.update_policy == "pinned"@) && record.source_type@ == "git"@
}

/// Decide how applying a profile treats one desired skill; an installed
/// skill that a tombstone names is forgotten by the index, and removed
/// only when removals are confirmed (`apply_deletions`).
pub fn plan_desired(index: &mut InstalledIndex, desired: &ProfileSkill, apply_deletions: bool) -> (r: Result<
    DesiredStep,
    SyncError,
>)
    requires
        old(index).wf(),
    ensures
        final(index).wf(),
        desired.deleted_at is Some ==> match old(index).entry(desired.key@) {
            Some(rec) => r == Ok::<DesiredStep, SyncError>(
                if apply_deletions {
                    DesiredStep::Delete { record: rec }
                } else {
                    DesiredStep::Pending { record: rec }
                },
            ) && final(index).entry(desired.key@) is None && (forall|k: Seq<char>|
                k != desired.key@ ==> #[trigger] final(index).entry(k) == old(index).entry(k)),
            None => r == Ok::<DesiredStep, SyncError>(DesiredStep::Skip) && *final(index) == *old(index),
        },
        desired.deleted_at is None ==> *final(index) == *old(index) && match old(index).entry(desired.key@) {
            Some(rec) => r == Ok::<DesiredStep, SyncError>(
                DesiredStep::Refresh { record: rec, update: spec_follows_source(desired@, rec) },
            ),
            None => if desired.source_type@ == "git"@ {
                r matches Ok(DesiredStep::InstallGit { url, name }) && url@ == desired.source_ref@ && name@
                    == desired.name@
            } else if desired.source_type@ == "package"@ {
                r matches Ok(DesiredStep::InstallPackage { source_ref, name }) && source_ref@ == desired.source_ref@
                    && name@ == desired.name@
            } else {
                r matches Err(SyncError::UnsupportedSource { source_type }) && source_type@ == desired.source_type@
            },
        },
{
    if desired.deleted_at.is_some() {
        let found = match index.get(desired.key.as_str()) {
            Some(rec) => Some(copy_record(rec)),
            None => None,
        };
        return match found {
            Some(record) => {
                index.remove(desired.key.as_str());
                if apply_deletions {
                    Ok(DesiredStep::Delete { record })
                } else {
                    Ok(DesiredStep::Pending { record })
                }
            },
            None => Ok(DesiredStep::Skip),
        };
    }
    match index.get(desired.key.as_str()) {
        Some(rec) => {
            let p = desired.update_policy.as_str();
            let update = (str_eq(p, "latest") || str_eq(p, "pinned")) && str_eq(rec.source_type.as_str(), "git");
            Ok(DesiredStep::Refresh { record: copy_record(rec), update })
        },
        None => {
            if str_eq(desired.source_type.as_str(), "git") {
                Ok(DesiredStep::InstallGit { url: desired.source_ref.clone(), name: desired.name.clone() })
            } else if str_eq(desired.source_type.as_str(), "package") {
                Ok(DesiredStep::InstallPackage { source_ref: desired.source_ref.clone(), name: desired.name.clone() })
            } else {
                Err(SyncError::UnsupportedSource { source_type: desired.source_type.clone() })
            }
        },
    }
}

/// The lists of a report that applying a profile appends to.
pub open spec fn report_lists(r: ProfileSyncReport) -> (
    Seq<Seq<char>>,
    Seq<Seq<char>>,
    Seq<Seq<char>>,
    Seq<Seq<char>>,
    Seq<Seq<char>>,
    Seq<Seq<char>>,
    Seq<(Seq<char>, Seq<char>)>,
) {
    (
        views(r.installed@),
        views(r.updated@),
        views(r.deleted@),
        views(r.pending_deletions@),
        views(r.synced_targets@),
        views(r.removed_targets@),
        pair_views(r.failures@),
    )
}

/// The same report but for its lists.
pub open spec fn same_header(a: ProfileSyncReport, b: ProfileSyncReport) -> bool {
    a.profile_id == b.profile_id && a.device_id == b.device_id && a.remote_found == b.remote_found && a.uploaded
        == b.uploaded && a.changed == b.changed && a.conflicts == b.conflicts && a.conflict_strategy
        == b.conflict_strategy && a.conflicts_resolved == b.conflicts_resolved && a.skipped_local == b.skipped_local
}

fn push_text(v: &mut Vec<String>, s: String)
    ensures
        views(final(v)@) == views(old(v)@).push(s@),
{
    let ghost v0 = views(v@);
    let ghost sv = s@;
    v.push(s);
    assert(views(v@) =~= v0.push(sv));
}

fn push_pair(v: &mut Vec<(String, String)>, a: String, b: String)
    ensures
        pair_views(final(v)@) == pair_views(old(v)@).push((a@, b@)),
{
    let ghost v0 = pair_views(v@);
    let ghost p = (a@, b@);
    v.push((a, b));
    assert(pair_views(v@) =~= v0.push(p));
}

/// Note how removing the skill `name` went.
pub fn note_deletion(report: &mut ProfileSyncReport, name: &str, result: Result<(), String>)
    ensures
        same_header(*final(report), *old(report)),
        report_lists(*final(report)) == (match result {
            Ok(()) => {
                let l = report_lists(*old(report));
                (l.0, l.1, l.2.push(name@), l.3, l.4, l.5, l.6)
            },
            Err(e) => {
                let l = report_lists(*old(report));
                (l.0, l.1, l.2, l.3, l.4, l.5, l.6.push((name@, "删除失败: "@ + e@)))
            },
        }),
{
    match result {
        Ok(()) => push_text(&mut report.deleted, owned(name)),
        Err(e) => push_pair(&mut report.failures, owned(name), concat_str("删除失败: ", e.as_str())),
    }
}

/// Note that removing the skill `name` waits for the user's confirmation.
pub fn note_pending_deletion(report: &mut ProfileSyncReport, name: &str)
    ensures
        same_header(*final(report), *old(report)),
        report_lists(*final(report)) == ({
            let l = report_lists(*old(report));
            (l.0, l.1, l.2, l.3.push(name@), l.4, l.5, l.6)
        }),
{
    push_text(&mut report.pending_deletions, owned(name));
}

/// Note that the skill `name` has local changes that were not pushed, so
/// its remote update was skipped.
pub fn note_local_changes(report: &mut ProfileSyncReport, name: &str)
    ensures
        same_header(*final(report), *old(report)),
        report_lists(*final(report)) == ({
            let l = report_lists(*old(report));
            (l.0, l.1, l.2, l.3, l.4, l.5, l.6.push((name@, "检测到未推送的本地修改，已跳过远端更新"@)))
        }),
{
    push_pair(&mut report.failures, owned(name), owned("检测到未推送的本地修改，已跳过远端更新"));
}

/// Note how updating the skill `name` from its source went.
pub fn note_update(report: &mut ProfileSyncReport, name: &str, result: Result<(), String>)
    ensures
        same_header(*final(report), *old(report)),
        report_lists(*final(report)) == (match result {
            Ok(()) => {
                let l = report_lists(*old(report));
                (l.0, l.1.push(name@), l.2, l.3, l.4, l.5, l.6)
            },
            Err(e) => {
                let l = report_lists(*old(report));
                (l.0, l.1, l.2, l.3, l.4, l.5, l.6.push((name@, "更新失败: "@ + e@)))
            },
        }),
{
    match result {
        Ok(()) => push_text(&mut report.updated, owned(name)),
        Err(e) => push_pair(&mut report.failures, owned(name), concat_str("更新失败: ", e.as_str())),
    }
}

pub open spec fn or_unknown(o: Option<Seq<char>>) -> Seq<char> {
    match o {
        Some(s) => s,
        None => "unknown"@,
    }
}

/// Check that a skill pinned by the profile is at the pinned revision,
/// noting a mismatch.
pub fn check_pinned_revision(report: &mut ProfileSyncReport, desired: &ProfileSkill, name: &str, current: &Option<String>)
    ensures
        same_header(*final(report), *old(report)),
        report_lists(*final(report)) == (if desired.update_policy@ == "pinned"@ && desired.pinned_revision is Some
            && opt_view(*current) != opt_view(desired.pinned_revision) {
            let l = report_lists(*old(report));
            (
                l.0,
                l.1,
                l.2,
                l.3,
                l.4,
                l.5,
                l.6.push(
                    (
                        name@,
                        "Profile 固定 revision "@ + or_unknown(opt_view(desired.pinned_revision)) + " 与当前 revision "@
                            + or_unknown(opt_view(*current)) + " 不一致"@,
                    ),
                ),
            )
        } else {
            report_lists(*old(report))
        }),
{
    if str_eq(desired.update_policy.as_str(), "pinned") && desired.pinned_revision.is_some()
        && !crate::text::opt_str_eq(current, &desired.pinned_revision) {
        let mut msg = chars_of("Profile 固定 revision ");
        match &desired.pinned_revision {
            Some(p) => extend_vec(&mut msg, &chars_of(p.as_str())),
            None => extend_vec(&mut msg, &chars_of("unknown")),
        }
        extend_vec(&mut msg, &chars_of(" 与当前 revision "));
        match current {
            Some(c) => extend_vec(&mut msg, &chars_of(c.as_str())),
            None => extend_vec(&mut msg, &chars_of("unknown")),
        }
        extend_vec(&mut msg, &chars_of(" 不一致"));
        push_pair(&mut report.failures, owned(name), string_of(&msg));
    }
}

/// Note how installing the desired skill `name` went (the installed name
/// on success); whether it was installed.
pub fn note_install(report: &mut ProfileSyncReport, name: &str, result: Result<String, String>) -> (r: bool)
    ensures
        same_header(*final(report), *old(report)),
        r == result is Ok,
        report_lists(*final(report)) == (match result {
            Ok(n) => {
                let l = report_lists(*old(report));
                (l.0.push(n@), l.1, l.2, l.3, l.4, l.5, l.6)
            },
            Err(e) => {
                let l = report_lists(*old(report));
                (l.0, l.1, l.2, l.3, l.4, l.5, l.6.push((name@, "安装失败: "@ + e@)))
            },
        }),
{
    match result {
        Ok(n) => {
            push_text(&mut report.installed, n);
            true
        },
        Err(e) => {
            push_pair(&mut report.failures, owned(name), concat_str("安装失败: ", e.as_str()));
            false
        },
    }
}

/// Which part of a skill failed to be restored.
#[derive(Debug, Clone, Copy)]
pub enum RestorePart {
    Tags,
    Origin,
}

/// Note that restoring the tags or the origin override of `name` failed.
pub fn note_restore_failure(report: &mut ProfileSyncReport, name: &str, part: RestorePart, error: &str)
    ensures
        same_header(*final(report), *old(report)),
        report_lists(*final(report)) == ({
            let l = report_lists(*old(report));
            (
                l.0,
                l.1,
                l.2,
                l.3,
                l.4,
                l.5,
                l.6.push(
                    (
                        name@,
                        match part {
                            RestorePart::Tags => "恢复标签失败: "@,
                            RestorePart::Origin => "恢复来源覆盖失败: "@,
                        } + error@,
                    ),
                ),
            )
        }),
{
    let prefix = match part {
        RestorePart::Tags => "恢复标签失败: ",
        RestorePart::Origin => "恢复来源覆盖失败: ",
    };
    push_pair(&mut report.failures, owned(name), concat_str(prefix, error));
}

/// The shared targets of a skill that the profile no longer lists, in
/// order.
pub open spec fn spec_stale_targets(current: Seq<crate::local_profile::LocalTarget>, desired: Seq<Seq<char>>) -> Seq<Seq<char>>
    decreases current.len(),
{
    if current.len() == 0 {
        Seq::empty()
    } else {
        let p = spec_stale_targets(current.drop_last(), desired);
        let t = current.last();
        if crate::local_profile::is_shared_target(t) && !desired.contains(t.tool@) { p.push(t.tool@) } else { p }
    }
}

/// The tools to unsync a skill from: its shared targets that the profile
/// does not list.
pub fn stale_targets(current: &Vec<crate::local_profile::LocalTarget>, desired: &Vec<String>) -> (r: Vec<String>)
    ensures
        views(r@) == spec_stale_targets(current@, views(desired@)),
{
    let mut out: Vec<String> = Vec::new();
    let mut i: usize = 0;
    while i < current.len()
        invariant
            i <= current@.len(),
            views(out@) == spec_stale_targets(current@.take(i as int), views(desired@)),
        decreases current.len() - i,
    {
        let t = &current[i];
        proof {
            let q = current@.take(i + 1);
            assert(q.drop_last() =~= current@.take(i as int));
            assert(q.last() == current@[i as int]);
        }
        let shared = str_eq(t.scope.as_str(), "global") && !crate::text::str_starts_with(t.tool.as_str(), "custom:");
        if shared && !contains_string(desired, t.tool.as_str()) {
            push_text(&mut out, t.tool.clone());
        }
        i = i + 1;
    }
    assert(current@.take(current@.len() as int) =~= current@);
    out
}

fn contains_string(v: &Vec<String>, s: &str) -> (r: bool)
    ensures
        r == views(v@).contains(s@),
{
    let mut i: usize = 0;
    while i < v.len()
        invariant
            i <= v@.len(),
            forall|k: int| 0 <= k < i ==> views(v@)[k] != s@,
        decreases v.len() - i,
    {
        if str_eq(v[i].as_str(), s) {
            assert(views(v@)[i as int] == s@);
            return true;
        }
        i = i + 1;
    }
    false
}

pub open spec fn arrow(name: Seq<char>, tool: Seq<char>) -> Seq<char> {
    name + " → "@ + tool
}

fn arrow_text(name: &str, tool: &str) -> (r: String)
    ensures
        r@ == arrow(name@, tool@),
{
    let mut v = chars_of(name);
    extend_vec(&mut v, &chars_of(" → "));
    extend_vec(&mut v, &chars_of(tool));
    string_of(&v)
}

/// Note how unsyncing the skill `name` from `tool` went.
pub fn note_target_removal(report: &mut ProfileSyncReport, name: &str, tool: &str, result: Result<(), String>)
    ensures
        same_header(*final(report), *old(report)),
        report_lists(*final(report)) == (match result {
            Ok(()) => {
                let l = report_lists(*old(report));
                (l.0, l.1, l.2, l.3, l.4, l.5.push(arrow(name@, tool@)), l.6)
            },
            Err(e) => {
                let l = report_lists(*old(report));
                (l.0, l.1, l.2, l.3, l.4, l.5, l.6.push((name@, "移除目标 "@ + tool@ + " 失败: "@ + e@)))
            },
        }),
{
    match result {
        Ok(()) => push_text(&mut report.removed_targets, arrow_text(name, tool)),
        Err(e) => {
            let mut v = chars_of("移除目标 ");
            extend_vec(&mut v, &chars_of(tool));
            extend_vec(&mut v, &chars_of(" 失败: "));
            extend_vec(&mut v, &chars_of(e.as_str()));
            push_pair(&mut report.failures, owned(name), string_of(&v));
        },
    }
}

/// Note how syncing the skill `name` to `tool` went.
pub fn note_target_sync(report: &mut ProfileSyncReport, name: &str, tool: &str, result: Result<(), String>)
    ensures
        same_header(*final(report), *old(report)),
        report_lists(*final(report)) == (match result {
            Ok(()) => {
                let l = report_lists(*old(report));
                (l.0, l.1, l.2, l.3, l.4.push(arrow(name@, tool@)), l.5, l.6)
            },
            Err(e) => {
                let l = report_lists(*old(report));
                (l.0, l.1, l.2, l.3, l.4, l.5, l.6.push((name@, "同步目标 "@ + tool@ + " 失败: "@ + e@)))
            },
        }),
{
    match result {
        Ok(()) => push_text(&mut report.synced_targets, arrow_text(name, tool)),
        Err(e) => {
            let mut v = chars_of("同步目标 ");
            extend_vec(&mut v, &chars_of(tool));
            extend_vec(&mut v, &chars_of(" 失败: "));
            extend_vec(&mut v, &chars_of(e.as_str()));
            push_pair(&mut report.failures, owned(name), string_of(&v));
        },
    }
}

/// The tags a profile's tag names come to, one per name in order, skipping
/// names that are blank once trimmed. `pairs` maps each lowercased tag name
/// known so far to the tag; a name whose trimmed, lowercased form is known
/// gets that tag, any other name becomes a new tag, known from then on.
pub open spec fn tag_plan(
    pairs: Seq<(Seq<char>, Seq<char>)>,
    names: Seq<Seq<char>>,
) -> (Seq<(Seq<char>, Seq<char>)>, Seq<Seq<char>>)
    decreases names.len(),
{
    if names.len() == 0 {
        (pairs, Seq::empty())
    } else {
        let (p, out) = tag_plan(pairs, names.drop_last());
        let n = names.last();
        let k = crate::text::lowercase(crate::text::trim(n));
        if k.len() == 0 {
            (p, out)
        } else {
            match crate::settings::last_value(p, k) {
                Some(v) => (p, out.push(v)),
                None => (p.push((k, n)), out.push(n)),
            }
        }
    }
}

/// The known tags keyed by their lowercased names.
pub open spec fn known_tag_pairs(known: Seq<Seq<char>>) -> Seq<(Seq<char>, Seq<char>)> {
    known.map_values(|t: Seq<char>| (crate::text::lowercase(t), t))
}

/// The tags a skill gets from a profile's tag names, given the names of the
/// tags that exist already (see [`tag_plan`]).
pub fn plan_tag_names(known: &Vec<String>, names: &Vec<String>) -> (r: Vec<String>)
    ensures
        views(r@) == tag_plan(known_tag_pairs(views(known@)), views(names@)).1,
{
    let mut pairs: Vec<(String, String)> = Vec::new();
    let mut k: usize = 0;
    while k < known.len()
        invariant
            k <= known@.len(),
            pair_views(pairs@) == known_tag_pairs(views(known@.subrange(0, k as int))),
        decreases known.len() - k,
    {
        let key = crate::text::to_lowercase_str(known[k].as_str());
        let name = owned(known[k].as_str());
        let ghost prev = pairs@;
        pairs.push((key, name));
        assert(pair_views(pairs@) =~= pair_views(prev).push((crate::text::lowercase(known@[k as int]@), known@[k as int]@)));
        assert(known_tag_pairs(views(known@.subrange(0, k + 1))) =~= known_tag_pairs(views(known@.subrange(0, k as int))).push(
            (crate::text::lowercase(known@[k as int]@), known@[k as int]@)));
        k = k + 1;
    }
    assert(known@.subrange(0, known@.len() as int) =~= known@);
    let ghost pairs0 = known_tag_pairs(views(known@));
    let mut out: Vec<String> = Vec::new();
    let mut i: usize = 0;
    while i < names.len()
        invariant
            i <= names@.len(),
            tag_plan(pairs0, views(names@.subrange(0, i as int))) == (pair_views(pairs@), views(out@)),
        decreases names.len() - i,
    {
        assert(views(names@.subrange(0, i + 1)).drop_last() =~= views(names@.subrange(0, i as int)));
        assert(views(names@.subrange(0, i + 1)).last() == names@[i as int]@);
        let trimmed = crate::text::trim_str(names[i].as_str());
        let key = crate::text::to_lowercase_str(trimmed.as_str());
        if chars_of(key.as_str()).len() > 0 {
            match crate::settings::lookup_last(&pairs, key.as_str()) {
                Some(v) => {
                    out.push(v);
                },
                None => {
                    pairs.push((key, names[i].clone()));
                    out.push(names[i].clone());
                },
            }
        }
        i = i + 1;
        assert(pair_views(pairs@) =~= tag_plan(pairs0, views(names@.subrange(0, i as int))).0);
        assert(views(out@) =~= tag_plan(pairs0, views(names@.subrange(0, i as int))).1);
    }
    assert(names@.subrange(0, names@.len() as int) =~= names@);
    out
}

} // verus!
