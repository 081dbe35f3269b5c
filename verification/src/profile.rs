//! Portable desired-state profiles for cross-device synchronization and
//! their three-way merge.

use vstd::prelude::*;
use crate::app_config::{opt_view, AppConfig, OriginRules, OriginRulesView};
use crate::explore::{source_views, ExploreSourceConfig, SourceView};
use crate::order::{
    lemma_insert_sorted, lemma_is_sorted_of, lemma_sorted_of_seq, lemma_sorted_unique, locate, lt_vec, seq_lt, sorted_of,
    sorted_strict, views,
};
use crate::backup::{hex_encode, hex_lower, sha256, sha256_digest};
use crate::project::{normalize_repository_url, spec_normalize_repository_url};
use crate::records::SkillRecord;
use crate::text::{
    to_lowercase_str, trim_str, chars_of, copy_opt, copy_strings, decimal, decimal_vec, extend_vec, is_blank, lowercase,
    lowercase_vec, opt_str_eq, str_eq, string_of, strings_eq, trim, trim_vec, vec_eq,
};

verus! {

pub const PROFILE_VERSION: u32 = 2;

/// The configuration shared between devices (no paths, no credentials).
#[derive(Debug, Clone)]
pub struct PortableProfileConfig {
    pub language: Option<String>,
    pub git_cache_cleanup_days: i64,
    pub git_cache_ttl_secs: i64,
    pub origin_rules: OriginRules,
    pub explore_sources: Vec<ExploreSourceConfig>,
}

/// A manually chosen origin classification carried by the profile.
#[derive(Debug, Clone)]
pub struct ProfileOriginOverride {
    pub origin_kind: String,
    pub origin_role: String,
    pub provider: Option<String>,
    pub remote_url: Option<String>,
    pub owner: Option<String>,
    pub repo: Option<String>,
    pub branch: Option<String>,
    pub subpath: Option<String>,
    pub update_strategy: String,
    pub publish_strategy: String,
}

/// The desired state of one portable skill.
#[derive(Debug, Clone)]
pub struct ProfileSkill {
    pub key: String,
    pub name: String,
    pub source_type: String,
    pub source_ref: String,
    pub source_subpath: Option<String>,
    pub update_policy: String,
    pub pinned_revision: Option<String>,
    pub targets: Vec<String>,
    pub tags: Vec<String>,
    pub origin_override: Option<ProfileOriginOverride>,
    pub deleted_at: Option<i64>,
    pub updated_at: i64,
    pub updated_by: String,
}

/// A complete portable profile.
#[derive(Debug, Clone)]
pub struct ProfileDocument {
    pub profile_version: u32,
    pub profile_id: String,
    pub generation: u64,
    pub updated_at: i64,
    pub updated_by: String,
    pub config: PortableProfileConfig,
    pub config_updated_at: i64,
    pub config_updated_by: String,
    pub skills: Vec<ProfileSkill>,
}

/// A part of the profile that both sides changed incompatibly.
#[derive(Debug, Clone)]
pub struct ProfileConflict {
    pub path: String,
    pub reason: String,
}

/// The outcome of a profile synchronization.
#[derive(Debug, Clone)]
pub struct ProfileSyncReport {
    pub profile_id: String,
    pub device_id: String,
    pub remote_found: bool,
    pub uploaded: bool,
    pub changed: bool,
    pub conflicts: Vec<ProfileConflict>,
    pub conflict_strategy: String,
    pub conflicts_resolved: bool,
    pub installed: Vec<String>,
    pub updated: Vec<String>,
    pub deleted: Vec<String>,
    pub pending_deletions: Vec<String>,
    pub synced_targets: Vec<String>,
    pub removed_targets: Vec<String>,
    pub skipped_local: Vec<String>,
    pub failures: Vec<(String, String)>,
}

/// Which side wins a conflict.
#[derive(Debug, Clone, Copy, PartialEq, Eq)]
pub enum ConflictStrategy {
    Abort,
    Local,
    Remote,
}

pub struct ConfigV {
    pub language: Option<Seq<char>>,
    pub git_cache_cleanup_days: i64,
    pub git_cache_ttl_secs: i64,
    pub origin_rules: OriginRulesView,
    pub explore_sources: Seq<SourceView>,
}

impl View for PortableProfileConfig {
    type V = ConfigV;

    open spec fn view(&self) -> ConfigV {
        ConfigV {
            language: opt_view(self.language),
            git_cache_cleanup_days: self.git_cache_cleanup_days,
            git_cache_ttl_secs: self.git_cache_ttl_secs,
            origin_rules: self.origin_rules@,
            explore_sources: source_views(self.explore_sources@),
        }
    }
}

pub struct OverrideV {
    pub origin_kind: Seq<char>,
    pub origin_role: Seq<char>,
    pub provider: Option<Seq<char>>,
    pub remote_url: Option<Seq<char>>,
    pub owner: Option<Seq<char>>,
    pub repo: Option<Seq<char>>,
    pub branch: Option<Seq<char>>,
    pub subpath: Option<Seq<char>>,
    pub update_strategy: Seq<char>,
    pub publish_strategy: Seq<char>,
}

impl View for ProfileOriginOverride {
    type V = OverrideV;

    open spec fn view(&self) -> OverrideV {
        OverrideV {
            origin_kind: self.origin_kind@,
            origin_role: self.origin_role@,
            provider: opt_view(self.provider),
            remote_url: opt_view(self.remote_url),
            owner: opt_view(self.owner),
            repo: opt_view(self.repo),
            branch: opt_view(self.branch),
            subpath: opt_view(self.subpath),
            update_strategy: self.update_strategy@,
            publish_strategy: self.publish_strategy@,
        }
    }
}

pub struct SkillV {
    pub key: Seq<char>,
    pub name: Seq<char>,
    pub source_type: Seq<char>,
    pub source_ref: Seq<char>,
    pub source_subpath: Option<Seq<char>>,
    pub update_policy: Seq<char>,
    pub pinned_revision: Option<Seq<char>>,
    pub targets: Seq<Seq<char>>,
    pub tags: Seq<Seq<char>>,
    pub origin_override: Option<OverrideV>,
    pub deleted_at: Option<i64>,
    pub updated_at: i64,
    pub updated_by: Seq<char>,
}

pub open spec fn override_view(o: Option<ProfileOriginOverride>) -> Option<OverrideV> {
    match o {
        Some(v) => Some(v@),
        None => None,
    }
}

impl View for ProfileSkill {
    type V = SkillV;

    open spec fn view(&self) -> SkillV {
        SkillV {
            key: self.key@,
            name: self.name@,
            source_type: self.source_type@,
            source_ref: self.source_ref@,
            source_subpath: opt_view(self.source_subpath),
            update_policy: self.update_policy@,
            pinned_revision: opt_view(self.pinned_revision),
            targets: views(self.targets@),
            tags: views(self.tags@),
            origin_override: override_view(self.origin_override),
            deleted_at: self.deleted_at,
            updated_at: self.updated_at,
            updated_by: self.updated_by@,
        }
    }
}

pub open spec fn skill_views(s: Seq<ProfileSkill>) -> Seq<SkillV> {
    s.map_values(|k: ProfileSkill| k@)
}

pub struct DocV {
    pub profile_version: u32,
    pub profile_id: Seq<char>,
    pub generation: u64,
    pub updated_at: i64,
    pub updated_by: Seq<char>,
    pub config: ConfigV,
    pub config_updated_at: i64,
    pub config_updated_by: Seq<char>,
    pub skills: Seq<SkillV>,
}

impl View for ProfileDocument {
    type V = DocV;

    open spec fn view(&self) -> DocV {
        DocV {
            profile_version: self.profile_version,
            profile_id: self.profile_id@,
            generation: self.generation,
            updated_at: self.updated_at,
            updated_by: self.updated_by@,
            config: self.config@,
            config_updated_at: self.config_updated_at,
            config_updated_by: self.config_updated_by@,
            skills: skill_views(self.skills@),
        }
    }
}

pub struct ConflictV {
    pub path: Seq<char>,
    pub reason: Seq<char>,
}

impl View for ProfileConflict {
    type V = ConflictV;

    open spec fn view(&self) -> ConflictV {
        ConflictV { path: self.path@, reason: self.reason@ }
    }
}

pub open spec fn conflict_views(c: Seq<ProfileConflict>) -> Seq<ConflictV> {
    c.map_values(|x: ProfileConflict| x@)
}

fn sources_eq(a: &Vec<ExploreSourceConfig>, b: &Vec<ExploreSourceConfig>) -> (r: bool)
    ensures
        r == (source_views(a@) == source_views(b@)),
{
    if a.len() != b.len() {
        assert(source_views(a@).len() != source_views(b@).len());
        return false;
    }
    let mut i: usize = 0;
    while i < a.len()
        invariant
            a@.len() == b@.len(),
            i <= a@.len(),
            forall|k: int| 0 <= k < i ==> #[trigger] source_views(a@)[k] == source_views(b@)[k],
        decreases a.len() - i,
    {
        let x = &a[i];
        let y = &b[i];
        assert(source_views(a@)[i as int] == x@ && source_views(b@)[i as int] == y@);
        if !(str_eq(x.id.as_str(), y.id.as_str()) && str_eq(x.name.as_str(), y.name.as_str())
            && str_eq(x.kind.as_str(), y.kind.as_str()) && str_eq(x.endpoint.as_str(), y.endpoint.as_str())
            && x.enabled == y.enabled && x.builtin == y.builtin) {
            return false;
        }
        i = i + 1;
    }
    assert(source_views(a@) =~= source_views(b@));
    true
}

fn rules_eq(a: &OriginRules, b: &OriginRules) -> (r: bool)
    ensures
        r == (a@ == b@),
{
    strings_eq(&a.my_git_owners, &b.my_git_owners) && strings_eq(&a.my_git_repos, &b.my_git_repos)
        && strings_eq(&a.official_git_repos, &b.official_git_repos)
}

/// Equality of portable configurations by contents.
pub fn config_eq(a: &PortableProfileConfig, b: &PortableProfileConfig) -> (r: bool)
    ensures
        r == (a@ == b@),
{
    opt_str_eq(&a.language, &b.language) && a.git_cache_cleanup_days == b.git_cache_cleanup_days
        && a.git_cache_ttl_secs == b.git_cache_ttl_secs && rules_eq(&a.origin_rules, &b.origin_rules)
        && sources_eq(&a.explore_sources, &b.explore_sources)
}

fn override_eq(a: &Option<ProfileOriginOverride>, b: &Option<ProfileOriginOverride>) -> (r: bool)
    ensures
        r == (override_view(*a) == override_view(*b)),
{
    match (a, b) {
        (Some(x), Some(y)) => str_eq(x.origin_kind.as_str(), y.origin_kind.as_str())
            && str_eq(x.origin_role.as_str(), y.origin_role.as_str())
            && opt_str_eq(&x.provider, &y.provider) && opt_str_eq(&x.remote_url, &y.remote_url)
            && opt_str_eq(&x.owner, &y.owner) && opt_str_eq(&x.repo, &y.repo)
            && opt_str_eq(&x.branch, &y.branch) && opt_str_eq(&x.subpath, &y.subpath)
            && str_eq(x.update_strategy.as_str(), y.update_strategy.as_str())
            && str_eq(x.publish_strategy.as_str(), y.publish_strategy.as_str()),
        (None, None) => true,
        _ => false,
    }
}

/// Same source, revision policy, ownership override and deletion state.
pub open spec fn identity_equal(a: SkillV, b: SkillV) -> bool {
    a.key == b.key && a.name == b.name && a.source_type == b.source_type && a.source_ref == b.source_ref
        && a.source_subpath == b.source_subpath && a.update_policy == b.update_policy
        && a.pinned_revision == b.pinned_revision && a.origin_override == b.origin_override
        && a.deleted_at == b.deleted_at
}

/// Equal in everything but the edit stamp (`updated_at`, `updated_by`).
pub open spec fn semantic_equal(a: SkillV, b: SkillV) -> bool {
    identity_equal(a, b) && a.targets == b.targets && a.tags == b.tags
}

/// Whether two skills agree on their identity fields.
pub fn skill_identity_equal(a: &ProfileSkill, b: &ProfileSkill) -> (r: bool)
    ensures
        r == identity_equal(a@, b@),
{
    str_eq(a.key.as_str(), b.key.as_str()) && str_eq(a.name.as_str(), b.name.as_str())
        && str_eq(a.source_type.as_str(), b.source_type.as_str())
        && str_eq(a.source_ref.as_str(), b.source_ref.as_str())
        && opt_str_eq(&a.source_subpath, &b.source_subpath)
        && str_eq(a.update_policy.as_str(), b.update_policy.as_str())
        && opt_str_eq(&a.pinned_revision, &b.pinned_revision)
        && override_eq(&a.origin_override, &b.origin_override) && a.deleted_at == b.deleted_at
}

/// Whether two skills agree in everything but their edit stamp.
pub fn semantic_skill_equal(a: &ProfileSkill, b: &ProfileSkill) -> (r: bool)
    ensures
        r == semantic_equal(a@, b@),
{
    skill_identity_equal(a, b) && strings_eq(&a.targets, &b.targets) && strings_eq(&a.tags, &b.tags)
}

/// Full equality of two skills, edit stamp included.
pub fn skill_eq(a: &ProfileSkill, b: &ProfileSkill) -> (r: bool)
    ensures
        r == (a@ == b@),
{
    semantic_skill_equal(a, b) && a.updated_at == b.updated_at && str_eq(a.updated_by.as_str(), b.updated_by.as_str())
}


/// The key a value is grouped under by [`union_sorted`].
pub open spec fn union_key(v: Seq<char>, case_insensitive: bool) -> Seq<char> {
    if case_insensitive { lowercase(trim(v)) } else { trim(v) }
}

/// The keys of the non-blank values among the first `n`.
pub open spec fn union_keys(vals: Seq<Seq<char>>, ci: bool, n: int) -> Set<Seq<char>> {
    Set::new(|k: Seq<char>| exists|i: int| 0 <= i < n && trim(vals[i]).len() > 0 && #[trigger] union_key(vals[i], ci) == k)
}

/// The trimmed first value among the first `n` grouped under `k`.
pub open spec fn first_for_key(vals: Seq<Seq<char>>, k: Seq<char>, ci: bool, n: int) -> Option<Seq<char>>
    decreases n,
{
    if n <= 0 {
        None
    } else {
        match first_for_key(vals, k, ci, n - 1) {
            Some(v) => Some(v),
            None => if trim(vals[n - 1]).len() > 0 && union_key(vals[n - 1], ci) == k {
                Some(trim(vals[n - 1]))
            } else {
                None
            },
        }
    }
}

/// One trimmed value per key, the first seen, ordered by key; blank values
/// are dropped.
pub open spec fn spec_union_sorted(vals: Seq<Seq<char>>, ci: bool) -> Seq<Seq<char>> {
    let n = vals.len() as int;
    sorted_of(union_keys(vals, ci, n)).map_values(|k: Seq<char>| first_for_key(vals, k, ci, n).unwrap())
}

proof fn lemma_first_for_key(vals: Seq<Seq<char>>, k: Seq<char>, ci: bool, n: int)
    requires
        0 <= n <= vals.len(),
    ensures
        first_for_key(vals, k, ci, n) is Some <==> union_keys(vals, ci, n).contains(k),
    decreases n,
{
    if n > 0 {
        lemma_first_for_key(vals, k, ci, n - 1);
        if union_keys(vals, ci, n).contains(k) {
            let i = choose|i: int| 0 <= i < n && trim(vals[i]).len() > 0 && #[trigger] union_key(vals[i], ci) == k;
            if i < n - 1 {
                assert(union_keys(vals, ci, n - 1).contains(k));
            }
        }
        if union_keys(vals, ci, n - 1).contains(k) {
            let i = choose|i: int| 0 <= i < n - 1 && trim(vals[i]).len() > 0 && #[trigger] union_key(vals[i], ci) == k;
            assert(union_keys(vals, ci, n).contains(k));
        }
    }
}

/// The keys of the non-blank values among the first `n`, in order.
spec fn key_seq(vals: Seq<Seq<char>>, ci: bool, n: int) -> Seq<Seq<char>>
    decreases n,
{
    if n <= 0 {
        Seq::empty()
    } else if trim(vals[n - 1]).len() > 0 {
        key_seq(vals, ci, n - 1).push(union_key(vals[n - 1], ci))
    } else {
        key_seq(vals, ci, n - 1)
    }
}

proof fn lemma_key_seq(vals: Seq<Seq<char>>, ci: bool, n: int)
    requires
        0 <= n <= vals.len(),
    ensures
        key_seq(vals, ci, n).to_set() == union_keys(vals, ci, n),
    decreases n,
{
    if n > 0 {
        lemma_key_seq(vals, ci, n - 1);
        let p = key_seq(vals, ci, n - 1);
        assert forall|k: Seq<char>| key_seq(vals, ci, n).to_set().contains(k) <==> union_keys(vals, ci, n).contains(k) by {
            if union_keys(vals, ci, n).contains(k) {
                let i = choose|i: int| 0 <= i < n && trim(vals[i]).len() > 0 && #[trigger] union_key(vals[i], ci) == k;
                if i < n - 1 {
                    assert(union_keys(vals, ci, n - 1).contains(k));
                    assert(p.to_set().contains(k));
                    let j = choose|j: int| 0 <= j < p.len() && p[j] == k;
                    assert(key_seq(vals, ci, n)[j] == k);
                } else {
                    assert(key_seq(vals, ci, n)[p.len() as int] == k);
                }
            }
            if key_seq(vals, ci, n).to_set().contains(k) {
                let j = choose|j: int| 0 <= j < key_seq(vals, ci, n).len() && key_seq(vals, ci, n)[j] == k;
                if j < p.len() {
                    assert(p.to_set().contains(k));
                    assert(union_keys(vals, ci, n - 1).contains(k));
                    let i = choose|i: int| 0 <= i < n - 1 && trim(vals[i]).len() > 0 && #[trigger] union_key(vals[i], ci) == k;
                    assert(0 <= i < n);
                } else {
                    assert(union_key(vals[n - 1], ci) == k);
                }
            }
        }
        assert(key_seq(vals, ci, n).to_set() =~= union_keys(vals, ci, n));
    } else {
        assert(key_seq(vals, ci, n).to_set() =~= union_keys(vals, ci, n));
    }
}

proof fn lemma_first_for_key_origin(vals: Seq<Seq<char>>, k: Seq<char>, ci: bool, n: int)
    requires
        0 <= n <= vals.len(),
        first_for_key(vals, k, ci, n) is Some,
    ensures
        exists|m: int|
            0 <= m < n && first_for_key(vals, k, ci, n) == Some(trim(vals[m])) && #[trigger] union_key(vals[m], ci) == k,
    decreases n,
{
    if first_for_key(vals, k, ci, n - 1) is Some {
        lemma_first_for_key_origin(vals, k, ci, n - 1);
        let m = choose|m: int|
            0 <= m < n - 1 && first_for_key(vals, k, ci, n - 1) == Some(trim(vals[m])) && #[trigger] union_key(vals[m], ci) == k;
        assert(0 <= m < n);
    } else {
        assert(union_key(vals[n - 1], ci) == k);
    }
}

/// No value is lost by a union: each non-blank value, trimmed, is in the
/// union of case-sensitive keys, and one equal to it ignoring case is in
/// the union of case-insensitive keys.
pub proof fn law_union_keeps_every_value(vals: Seq<Seq<char>>, i: int)
    requires
        0 <= i < vals.len(),
        trim(vals[i]).len() > 0,
    ensures
        spec_union_sorted(vals, false).contains(trim(vals[i])),
        exists|x: Seq<char>| spec_union_sorted(vals, true).contains(x) && lowercase(x) == lowercase(trim(vals[i])),
{
    let n = vals.len() as int;
    assert forall|ci: bool| #[trigger] union_keys(vals, ci, n).contains(union_key(vals[i], ci)) && ({
        let ks = sorted_of(union_keys(vals, ci, n));
        exists|j: int| 0 <= j < ks.len() && ks[j] == union_key(vals[i], ci)
    }) by {
        assert(union_keys(vals, ci, n).contains(union_key(vals[i], ci)));
        lemma_key_seq(vals, ci, n);
        lemma_sorted_of_seq(key_seq(vals, ci, n));
        let ks = sorted_of(union_keys(vals, ci, n));
        assert(ks.to_set().contains(union_key(vals[i], ci)));
    }
    let kf = sorted_of(union_keys(vals, false, n));
    let kt = sorted_of(union_keys(vals, true, n));
    assert(union_keys(vals, false, n).contains(union_key(vals[i], false)));
    assert(union_keys(vals, true, n).contains(union_key(vals[i], true)));
    let jf = choose|j: int| 0 <= j < kf.len() && kf[j] == union_key(vals[i], false);
    let jt = choose|j: int| 0 <= j < kt.len() && kt[j] == union_key(vals[i], true);
    lemma_first_for_key(vals, kf[jf], false, n);
    lemma_first_for_key(vals, kt[jt], true, n);
    lemma_first_for_key_origin(vals, kf[jf], false, n);
    lemma_first_for_key_origin(vals, kt[jt], true, n);
    let uf = spec_union_sorted(vals, false);
    let ut = spec_union_sorted(vals, true);
    assert(uf[jf] == first_for_key(vals, kf[jf], false, n).unwrap());
    assert(uf[jf] == trim(vals[i]));
    assert(ut[jt] == first_for_key(vals, kt[jt], true, n).unwrap());
    assert(lowercase(ut[jt]) == lowercase(trim(vals[i])));
    assert(0 <= jt < ut.len());
    assert(ut.contains(ut[jt]));
}

/// Merge values into one sorted list with one entry per key, keeping the
/// first value seen for each key (keys compare case-insensitively when
/// `case_insensitive` is set).
pub fn union_sorted(values: &Vec<String>, case_insensitive: bool) -> (r: Vec<String>)
    ensures
        views(r@) == spec_union_sorted(views(values@), case_insensitive),
{
    let ghost vals = views(values@);
    let ci = case_insensitive;
    let mut keys: Vec<String> = Vec::new();
    let mut out: Vec<String> = Vec::new();
    let mut i: usize = 0;
    assert(views(keys@).to_set() =~= union_keys(vals, ci, 0));
    while i < values.len()
        invariant
            i <= values@.len(),
            vals == views(values@),
            ci == case_insensitive,
            sorted_strict(views(keys@)),
            views(keys@).to_set() == union_keys(vals, ci, i as int),
            out@.len() == keys@.len(),
            forall|j: int| 0 <= j < keys@.len() ==> #[trigger] views(out@)[j]
                == first_for_key(vals, views(keys@)[j], ci, i as int).unwrap(),
        decreases values.len() - i,
    {
        assert(vals[i as int] == values@[i as int]@);
        let t = trim_vec(&chars_of(values[i].as_str()));
        let ghost kv0 = views(keys@);
        let ghost ov0 = views(out@);
        if t.len() > 0 {
            let k = if ci { lowercase_vec(&t) } else { crate::text::slice_vec(&t, 0, t.len()) };
            assert(k@ =~= union_key(vals[i as int], ci));
            let (pos, found) = locate(&keys, &k);
            if !found {
                proof {
                    lemma_insert_sorted(kv0, pos as int, k@);
                    lemma_first_for_key(vals, k@, ci, i as int);
                    assert(!kv0.to_set().contains(k@)) by {
                        if kv0.to_set().contains(k@) {
                            let m = choose|m: int| 0 <= m < kv0.len() && kv0[m] == k@;
                            if m < pos {
                                assert(seq_lt(kv0[m], k@));
                            } else {
                                assert(seq_lt(k@, kv0[m]));
                            }
                            crate::order::lemma_lt_irreflexive(k@);
                        }
                    }
                }
                keys.insert(pos, string_of(&k));
                out.insert(pos, string_of(&t));
                proof {
                    assert(views(keys@) =~= kv0.insert(pos as int, k@));
                    assert(views(out@) =~= ov0.insert(pos as int, t@));
                    assert(views(keys@).to_set() =~= union_keys(vals, ci, i + 1)) by {
                        assert forall|x: Seq<char>| union_keys(vals, ci, i + 1).contains(x) <==> kv0.to_set().insert(k@).contains(x) by {
                            if union_keys(vals, ci, i + 1).contains(x) {
                                let m = choose|m: int| 0 <= m < i + 1 && trim(vals[m]).len() > 0 && #[trigger] union_key(vals[m], ci) == x;
                                if m < i {
                                    assert(union_keys(vals, ci, i as int).contains(x));
                                }
                            }
                            if kv0.to_set().contains(x) {
                                assert(union_keys(vals, ci, i as int).contains(x));
                                let m = choose|m: int| 0 <= m < i && trim(vals[m]).len() > 0 && #[trigger] union_key(vals[m], ci) == x;
                                assert(0 <= m < i + 1);
                            }
                            if x == k@ {
                                assert(trim(vals[i as int]).len() > 0 && union_key(vals[i as int], ci) == x);
                            }
                        }
                    }
                    assert forall|j: int| 0 <= j < keys@.len() implies #[trigger] views(out@)[j]
                        == first_for_key(vals, views(keys@)[j], ci, i + 1).unwrap() by {
                        if j < pos {
                            assert(views(keys@)[j] == kv0[j]);
                            lemma_first_for_key(vals, kv0[j], ci, i as int);
                            assert(kv0.to_set().contains(kv0[j]));
                        } else if j > pos {
                            assert(views(keys@)[j] == kv0[j - 1]);
                            lemma_first_for_key(vals, kv0[j - 1], ci, i as int);
                            assert(kv0.to_set().contains(kv0[j - 1]));
                        }
                    }
                }
            } else {
                proof {
                    assert(views(keys@).to_set() =~= union_keys(vals, ci, i + 1)) by {
                        assert(kv0.to_set().contains(k@));
                        assert forall|x: Seq<char>| union_keys(vals, ci, i + 1).contains(x) implies kv0.to_set().contains(x) by {
                            let m = choose|m: int| 0 <= m < i + 1 && trim(vals[m]).len() > 0 && #[trigger] union_key(vals[m], ci) == x;
                            if m < i {
                                assert(union_keys(vals, ci, i as int).contains(x));
                            }
                        }
                        assert forall|x: Seq<char>| kv0.to_set().contains(x) implies union_keys(vals, ci, i + 1).contains(x) by {
                            assert(union_keys(vals, ci, i as int).contains(x));
                            let m = choose|m: int| 0 <= m < i && trim(vals[m]).len() > 0 && #[trigger] union_key(vals[m], ci) == x;
                            assert(0 <= m < i + 1);
                        }
                    }
                    assert forall|j: int| 0 <= j < keys@.len() implies #[trigger] views(out@)[j]
                        == first_for_key(vals, views(keys@)[j], ci, i + 1).unwrap() by {
                        lemma_first_for_key(vals, kv0[j], ci, i as int);
                        assert(kv0.to_set().contains(kv0[j]));
                    }
                }
            }
        } else {
            proof {
                assert(views(keys@).to_set() =~= union_keys(vals, ci, i + 1)) by {
                    assert forall|x: Seq<char>| union_keys(vals, ci, i + 1).contains(x) implies kv0.to_set().contains(x) by {
                        let m = choose|m: int| 0 <= m < i + 1 && trim(vals[m]).len() > 0 && #[trigger] union_key(vals[m], ci) == x;
                        if m < i {
                            assert(union_keys(vals, ci, i as int).contains(x));
                        }
                    }
                    assert forall|x: Seq<char>| kv0.to_set().contains(x) implies union_keys(vals, ci, i + 1).contains(x) by {
                        assert(union_keys(vals, ci, i as int).contains(x));
                        let m = choose|m: int| 0 <= m < i && trim(vals[m]).len() > 0 && #[trigger] union_key(vals[m], ci) == x;
                        assert(0 <= m < i + 1);
                    }
                }
                assert forall|j: int| 0 <= j < keys@.len() implies #[trigger] views(out@)[j]
                    == first_for_key(vals, views(keys@)[j], ci, i + 1).unwrap() by {
                    lemma_first_for_key(vals, kv0[j], ci, i as int);
                    assert(kv0.to_set().contains(kv0[j]));
                }
            }
        }
        i = i + 1;
    }
    proof {
        lemma_is_sorted_of(views(keys@));
        assert(views(out@) =~= spec_union_sorted(vals, ci));
    }
    out
}


fn copy_override(o: &Option<ProfileOriginOverride>) -> (r: Option<ProfileOriginOverride>)
    ensures
        override_view(r) == override_view(*o),
{
    match o {
        Some(x) => Some(ProfileOriginOverride {
            origin_kind: x.origin_kind.clone(),
            origin_role: x.origin_role.clone(),
            provider: copy_opt(&x.provider),
            remote_url: copy_opt(&x.remote_url),
            owner: copy_opt(&x.owner),
            repo: copy_opt(&x.repo),
            branch: copy_opt(&x.branch),
            subpath: copy_opt(&x.subpath),
            update_strategy: x.update_strategy.clone(),
            publish_strategy: x.publish_strategy.clone(),
        }),
        None => None,
    }
}

/// A copy of a skill.
pub fn copy_skill(s: &ProfileSkill) -> (r: ProfileSkill)
    ensures
        r@ == s@,
{
    ProfileSkill {
        key: s.key.clone(),
        name: s.name.clone(),
        source_type: s.source_type.clone(),
        source_ref: s.source_ref.clone(),
        source_subpath: copy_opt(&s.source_subpath),
        update_policy: s.update_policy.clone(),
        pinned_revision: copy_opt(&s.pinned_revision),
        targets: copy_strings(&s.targets),
        tags: copy_strings(&s.tags),
        origin_override: copy_override(&s.origin_override),
        deleted_at: s.deleted_at,
        updated_at: s.updated_at,
        updated_by: s.updated_by.clone(),
    }
}

/// The union of two concurrent edits of the same skill: identity fields
/// must agree; the more recent side supplies everything else, targets and
/// tags become the sorted union (tags case-insensitively) and the edit is
/// stamped with `device` and `now`.
pub open spec fn spec_merge_compatible(l: SkillV, r: SkillV, device: Seq<char>, now: i64) -> Option<SkillV> {
    if !identity_equal(l, r) {
        None
    } else {
        let base = if l.updated_at >= r.updated_at { l } else { r };
        Some(SkillV {
            targets: spec_union_sorted(l.targets + r.targets, false),
            tags: spec_union_sorted(l.tags + r.tags, true),
            updated_at: now,
            updated_by: device,
            ..base
        })
    }
}

fn concat_strings(a: &Vec<String>, b: &Vec<String>) -> (r: Vec<String>)
    ensures
        views(r@) == views(a@) + views(b@),
{
    let mut r = copy_strings(a);
    let mut i: usize = 0;
    while i < b.len()
        invariant
            i <= b@.len(),
            views(r@) == views(a@) + views(b@).subrange(0, i as int),
        decreases b.len() - i,
    {
        let ghost prev = views(r@);
        let c = b[i].clone();
        r.push(c);
        assert(views(r@) =~= prev.push(views(b@)[i as int]));
        i = i + 1;
        assert(views(r@) =~= views(a@) + views(b@).subrange(0, i as int));
    }
    assert(views(b@).subrange(0, b@.len() as int) =~= views(b@));
    r
}

/// Merge concurrent edits that only extend a skill's targets and tags, at
/// time `now`.
pub fn merge_compatible_skill_at(local: &ProfileSkill, remote: &ProfileSkill, device_id: &str, now: i64) -> (r: Option<ProfileSkill>)
    ensures
        match r {
            Some(m) => spec_merge_compatible(local@, remote@, device_id@, now) == Some(m@),
            None => spec_merge_compatible(local@, remote@, device_id@, now) is None,
        },
{
    if !skill_identity_equal(local, remote) {
        return None;
    }
    let mut merged = if local.updated_at >= remote.updated_at { copy_skill(local) } else { copy_skill(remote) };
    merged.targets = union_sorted(&concat_strings(&local.targets, &remote.targets), false);
    merged.tags = union_sorted(&concat_strings(&local.tags, &remote.tags), true);
    merged.updated_at = now;
    merged.updated_by = crate::text::owned(device_id);
    Some(merged)
}

/// The current time in milliseconds since the Unix epoch, from the system
/// clock; nothing is stated of its value.
#[verifier::external_body]
pub(crate) fn now_ms() -> i64 {
    std::time::SystemTime::now()
        .duration_since(std::time::UNIX_EPOCH)
        .map(|d| d.as_millis() as i64)
        .unwrap_or(0)
}

/// Merge concurrent edits that only extend a skill's targets and tags,
/// stamped with the current time.
pub fn merge_compatible_skill(local: &ProfileSkill, remote: &ProfileSkill, device_id: &str) -> (r: Option<ProfileSkill>)
    ensures
        match r {
            Some(m) => spec_merge_compatible(local@, remote@, device_id@, m.updated_at) == Some(m@),
            None => !identity_equal(local@, remote@),
        },
{
    let now = now_ms();
    merge_compatible_skill_at(local, remote, device_id, now)
}

/// The last of the first `n` skills whose key is `k`.
pub open spec fn last_with_key(s: Seq<SkillV>, k: Seq<char>, n: int) -> Option<SkillV>
    decreases n,
{
    if n <= 0 {
        None
    } else if s[n - 1].key == k {
        Some(s[n - 1])
    } else {
        last_with_key(s, k, n - 1)
    }
}

/// The skill a document holds under key `k` (the last one when a key
/// repeats).
pub open spec fn lookup(s: Seq<SkillV>, k: Seq<char>) -> Option<SkillV> {
    last_with_key(s, k, s.len() as int)
}

/// The keys of the first `n` skills.
pub open spec fn key_set(s: Seq<SkillV>, n: int) -> Set<Seq<char>> {
    Set::new(|k: Seq<char>| exists|i: int| 0 <= i < n && #[trigger] s[i].key == k)
}

pub proof fn lemma_last_with_key(s: Seq<SkillV>, k: Seq<char>, n: int)
    requires
        0 <= n <= s.len(),
    ensures
        last_with_key(s, k, n) is Some <==> key_set(s, n).contains(k),
        last_with_key(s, k, n) is Some ==> last_with_key(s, k, n).unwrap().key == k,
    decreases n,
{
    if n > 0 {
        lemma_last_with_key(s, k, n - 1);
        if key_set(s, n).contains(k) {
            let i = choose|i: int| 0 <= i < n && #[trigger] s[i].key == k;
            if i < n - 1 {
                assert(key_set(s, n - 1).contains(k));
            }
        }
        if key_set(s, n - 1).contains(k) {
            let i = choose|i: int| 0 <= i < n - 1 && #[trigger] s[i].key == k;
            assert(key_set(s, n).contains(k));
        }
    }
}

/// A document's skills indexed by key: strictly sorted keys, and for each
/// key the skill the document holds under it.
pub struct SkillMap {
    pub keys: Vec<String>,
    pub skills: Vec<ProfileSkill>,
}

impl SkillMap {
    pub open spec fn indexes(&self, s: Seq<SkillV>) -> bool {
        &&& sorted_strict(views(self.keys@))
        &&& views(self.keys@).to_set() == key_set(s, s.len() as int)
        &&& self.skills@.len() == self.keys@.len()
        &&& forall|j: int| 0 <= j < self.keys@.len() ==> Some(#[trigger] self.skills@[j]@) == lookup(s, views(self.keys@)[j])
    }

    /// Index the skills of a document by key.
    pub fn build(skills: &Vec<ProfileSkill>) -> (m: SkillMap)
        ensures
            m.indexes(skill_views(skills@)),
    {
        let ghost sv = skill_views(skills@);
        let mut keys: Vec<String> = Vec::new();
        let mut vals: Vec<ProfileSkill> = Vec::new();
        let mut i: usize = 0;
        assert(views(keys@).to_set() =~= key_set(sv, 0));
        while i < skills.len()
            invariant
                i <= skills@.len(),
                sv == skill_views(skills@),
                sorted_strict(views(keys@)),
                views(keys@).to_set() == key_set(sv, i as int),
                vals@.len() == keys@.len(),
                forall|j: int| 0 <= j < keys@.len() ==> Some(#[trigger] vals@[j]@) == last_with_key(sv, views(keys@)[j], i as int),
            decreases skills.len() - i,
        {
            assert(sv[i as int] == skills@[i as int]@);
            let k = chars_of(skills[i].key.as_str());
            let ghost kv0 = views(keys@);
            let ghost vv0 = vals@;
            let (pos, found) = locate(&keys, &k);
            proof {
                lemma_last_with_key(sv, k@, i as int);
            }
            if found {
                vals.set(pos, copy_skill(&skills[i]));
                proof {
                    assert(key_set(sv, i + 1) =~= key_set(sv, i as int)) by {
                        assert(kv0.to_set().contains(k@));
                        assert forall|x: Seq<char>| key_set(sv, i + 1).contains(x) implies key_set(sv, i as int).contains(x) by {
                            let m = choose|m: int| 0 <= m < i + 1 && #[trigger] sv[m].key == x;
                            if m < i {
                                assert(key_set(sv, i as int).contains(x));
                            }
                        }
                        assert forall|x: Seq<char>| key_set(sv, i as int).contains(x) implies key_set(sv, i + 1).contains(x) by {
                            let m = choose|m: int| 0 <= m < i && #[trigger] sv[m].key == x;
                            assert(0 <= m < i + 1);
                        }
                    }
                    assert forall|j: int| 0 <= j < keys@.len() implies Some(#[trigger] vals@[j]@) == last_with_key(sv, views(keys@)[j], i + 1) by {
                        if j != pos {
                            assert(vals@[j] == vv0[j]);
                            crate::order::lemma_lt_irreflexive(k@);
                            assert(kv0[j] != kv0[pos as int]) by {
                                if j < pos {
                                    assert(seq_lt(kv0[j], kv0[pos as int]));
                                } else {
                                    assert(seq_lt(kv0[pos as int], kv0[j]));
                                }
                                crate::order::lemma_lt_irreflexive(kv0[j]);
                            }
                        }
                    }
                }
            } else {
                proof {
                    lemma_insert_sorted(kv0, pos as int, k@);
                    assert(!kv0.to_set().contains(k@)) by {
                        if kv0.to_set().contains(k@) {
                            let m = choose|m: int| 0 <= m < kv0.len() && kv0[m] == k@;
                            if m < pos {
                                assert(seq_lt(kv0[m], k@));
                            } else {
                                assert(seq_lt(k@, kv0[m]));
                            }
                            crate::order::lemma_lt_irreflexive(k@);
                        }
                    }
                }
                keys.insert(pos, string_of(&k));
                vals.insert(pos, copy_skill(&skills[i]));
                proof {
                    assert(views(keys@) =~= kv0.insert(pos as int, k@));
                    assert(views(keys@).to_set() =~= key_set(sv, i + 1)) by {
                        assert forall|x: Seq<char>| key_set(sv, i + 1).contains(x) <==> kv0.to_set().insert(k@).contains(x) by {
                            if key_set(sv, i + 1).contains(x) {
                                let m = choose|m: int| 0 <= m < i + 1 && #[trigger] sv[m].key == x;
                                if m < i {
                                    assert(key_set(sv, i as int).contains(x));
                                }
                            }
                            if kv0.to_set().contains(x) {
                                assert(key_set(sv, i as int).contains(x));
                                let m = choose|m: int| 0 <= m < i && #[trigger] sv[m].key == x;
                                assert(0 <= m < i + 1);
                            }
                            if x == k@ {
                                assert(sv[i as int].key == x);
                            }
                        }
                    }
                    assert forall|j: int| 0 <= j < keys@.len() implies Some(#[trigger] vals@[j]@) == last_with_key(sv, views(keys@)[j], i + 1) by {
                        if j < pos {
                            assert(vals@[j] == vv0[j]);
                            assert(views(keys@)[j] == kv0[j]);
                            assert(seq_lt(kv0[j], k@));
                            crate::order::lemma_lt_irreflexive(k@);
                        } else if j > pos {
                            assert(vals@[j] == vv0[j - 1]);
                            assert(views(keys@)[j] == kv0[j - 1]);
                            assert(seq_lt(k@, kv0[j - 1]));
                            crate::order::lemma_lt_irreflexive(k@);
                        }
                    }
                }
            }
            i = i + 1;
        }
        SkillMap { keys, skills: vals }
    }

    /// The skill held under key `k`, if any.
    pub fn get(&self, k: &[char], Ghost(s): Ghost<Seq<SkillV>>) -> (r: Option<&ProfileSkill>)
        requires
            self.indexes(s),
        ensures
            match r {
                Some(x) => lookup(s, k@) == Some(x@),
                None => lookup(s, k@) is None,
            },
    {
        let (pos, found) = locate(&self.keys, k);
        proof { lemma_last_with_key(s, k@, s.len() as int); }
        if found {
            Some(&self.skills[pos])
        } else {
            proof {
                if key_set(s, s.len() as int).contains(k@) {
                    let kv = views(self.keys@);
                    assert(kv.to_set().contains(k@));
                    let m = choose|m: int| 0 <= m < kv.len() && kv[m] == k@;
                    if m < pos {
                        assert(seq_lt(kv[m], k@));
                    } else {
                        assert(seq_lt(k@, kv[m]));
                    }
                    crate::order::lemma_lt_irreflexive(k@);
                }
            }
            None
        }
    }
}


/// Why a profile document or a request was refused.
#[derive(Debug, Clone)]
pub enum ProfileError {
    /// Written by a newer profile format than this one supports.
    NewerVersion { found: u32, supported: u32 },
    /// The profile id is blank.
    MissingProfileId,
    /// A skill lacks its key, name or source reference.
    SkillMissingFields,
    /// Two skills share a key.
    DuplicateKey { key: String },
    /// A skill names an update policy other than latest, pinned or manual.
    UnsupportedPolicy { name: String, policy: String },
    /// A conflict strategy other than abort, local or remote.
    InvalidStrategy,
}

pub enum ProfileErrorV {
    NewerVersion { found: u32, supported: u32 },
    MissingProfileId,
    SkillMissingFields,
    DuplicateKey { key: Seq<char> },
    UnsupportedPolicy { name: Seq<char>, policy: Seq<char> },
    InvalidStrategy,
}

impl View for ProfileError {
    type V = ProfileErrorV;

    open spec fn view(&self) -> ProfileErrorV {
        match self {
            ProfileError::NewerVersion { found, supported } => ProfileErrorV::NewerVersion { found: *found, supported: *supported },
            ProfileError::MissingProfileId => ProfileErrorV::MissingProfileId,
            ProfileError::SkillMissingFields => ProfileErrorV::SkillMissingFields,
            ProfileError::DuplicateKey { key } => ProfileErrorV::DuplicateKey { key: key@ },
            ProfileError::UnsupportedPolicy { name, policy } => ProfileErrorV::UnsupportedPolicy { name: name@, policy: policy@ },
            ProfileError::InvalidStrategy => ProfileErrorV::InvalidStrategy,
        }
    }
}

pub open spec fn spec_profile_error_message(e: ProfileErrorV) -> Seq<char> {
    match e {
        ProfileErrorV::NewerVersion { found, supported } => "Profile 由更新版本 (v"@ + decimal(found as nat)
            + ") 创建，当前仅支持 v"@ + decimal(supported as nat),
        ProfileErrorV::MissingProfileId => "Profile 缺少 profileId"@,
        ProfileErrorV::SkillMissingFields => "Profile Skill 缺少 key、name 或 sourceRef"@,
        ProfileErrorV::DuplicateKey { key } => "Profile 包含重复 Skill key: "@ + key,
        ProfileErrorV::UnsupportedPolicy { name, policy } => "Profile Skill "@ + name + " 使用不支持的更新策略: "@
            + policy,
        ProfileErrorV::InvalidStrategy => "冲突策略必须是 abort、local 或 remote"@,
    }
}

impl ProfileError {
    /// The user-facing message for this error.
    pub fn message(&self) -> (r: String)
        ensures
            r@ == spec_profile_error_message(self@),
    {
        match self {
            ProfileError::NewerVersion { found, supported } => {
                let mut v = chars_of("Profile 由更新版本 (v");
                extend_vec(&mut v, &decimal_vec(*found as u64));
                extend_vec(&mut v, &chars_of(") 创建，当前仅支持 v"));
                extend_vec(&mut v, &decimal_vec(*supported as u64));
                string_of(&v)
            },
            ProfileError::MissingProfileId => crate::text::owned("Profile 缺少 profileId"),
            ProfileError::SkillMissingFields => crate::text::owned("Profile Skill 缺少 key、name 或 sourceRef"),
            ProfileError::DuplicateKey { key } => crate::text::concat_str("Profile 包含重复 Skill key: ", key.as_str()),
            ProfileError::UnsupportedPolicy { name, policy } => {
                let mut v = chars_of("Profile Skill ");
                extend_vec(&mut v, &chars_of(name.as_str()));
                extend_vec(&mut v, &chars_of(" 使用不支持的更新策略: "));
                extend_vec(&mut v, &chars_of(policy.as_str()));
                string_of(&v)
            },
            ProfileError::InvalidStrategy => crate::text::owned("冲突策略必须是 abort、local 或 remote"),
        }
    }
}

/// The update policies a profile skill may carry.
pub open spec fn is_known_policy(p: Seq<char>) -> bool {
    p == "latest"@ || p == "pinned"@ || p == "manual"@
}

/// What is wrong with the `i`-th skill, given the skills before it.
pub open spec fn skill_error(s: Seq<SkillV>, i: int) -> Option<ProfileErrorV> {
    if trim(s[i].key).len() == 0 || trim(s[i].name).len() == 0 || trim(s[i].source_ref).len() == 0 {
        Some(ProfileErrorV::SkillMissingFields)
    } else if key_set(s, i).contains(s[i].key) {
        Some(ProfileErrorV::DuplicateKey { key: s[i].key })
    } else if !is_known_policy(s[i].update_policy) {
        Some(ProfileErrorV::UnsupportedPolicy { name: s[i].name, policy: s[i].update_policy })
    } else {
        None
    }
}

/// The first error among the first `n` skills.
pub open spec fn first_skill_error(s: Seq<SkillV>, n: int) -> Option<ProfileErrorV>
    decreases n,
{
    if n <= 0 {
        None
    } else {
        match first_skill_error(s, n - 1) {
            Some(e) => Some(e),
            None => skill_error(s, n - 1),
        }
    }
}

proof fn lemma_first_error_stays(s: Seq<SkillV>, n: int, m: int)
    requires
        n <= m,
        first_skill_error(s, n) is Some,
    ensures
        first_skill_error(s, m) == first_skill_error(s, n),
    decreases m - n,
{
    if m > n {
        lemma_first_error_stays(s, n, m - 1);
    }
}

/// The validation outcome of a profile document: the format version, the
/// profile id, then each skill in order.
pub open spec fn spec_validate_document(d: DocV) -> Result<(), ProfileErrorV> {
    if d.profile_version > PROFILE_VERSION {
        Err(ProfileErrorV::NewerVersion { found: d.profile_version, supported: PROFILE_VERSION })
    } else if trim(d.profile_id).len() == 0 {
        Err(ProfileErrorV::MissingProfileId)
    } else {
        match first_skill_error(d.skills, d.skills.len() as int) {
            Some(e) => Err(e),
            None => Ok(()),
        }
    }
}

pub open spec fn unit_result_view(r: Result<(), ProfileError>) -> Result<(), ProfileErrorV> {
    match r {
        Ok(()) => Ok(()),
        Err(e) => Err(e@),
    }
}

impl ProfileDocument {
    /// Check a profile document before it is used.
    pub fn validate(&self) -> (r: Result<(), ProfileError>)
        ensures
            unit_result_view(r) == spec_validate_document(self@),
    {
        if self.profile_version > PROFILE_VERSION {
            return Err(ProfileError::NewerVersion { found: self.profile_version, supported: PROFILE_VERSION });
        }
        if is_blank(self.profile_id.as_str()) {
            return Err(ProfileError::MissingProfileId);
        }
        let ghost sv = skill_views(self.skills@);
        let mut seen: Vec<String> = Vec::new();
        let mut i: usize = 0;
        assert(views(seen@).to_set() =~= key_set(sv, 0));
        while i < self.skills.len()
            invariant
                i <= self.skills@.len(),
                sv == skill_views(self.skills@),
                self.profile_version <= PROFILE_VERSION,
                trim(self.profile_id@).len() > 0,
                sorted_strict(views(seen@)),
                views(seen@).to_set() == key_set(sv, i as int),
                first_skill_error(sv, i as int) is None,
            decreases self.skills.len() - i,
        {
            let skill = &self.skills[i];
            assert(sv[i as int] == skill@);
            if is_blank(skill.key.as_str()) || is_blank(skill.name.as_str()) || is_blank(skill.source_ref.as_str()) {
                proof {
                    lemma_first_error_stays(sv, i + 1, sv.len() as int);
                }
                return Err(ProfileError::SkillMissingFields);
            }
            let k = chars_of(skill.key.as_str());
            let (pos, found) = locate(&seen, &k);
            if found {
                proof {
                    assert(views(seen@).to_set().contains(k@)) by {
                        assert(views(seen@)[pos as int] == k@);
                    }
                    lemma_first_error_stays(sv, i + 1, sv.len() as int);
                }
                return Err(ProfileError::DuplicateKey { key: skill.key.clone() });
            }
            proof {
                assert(!key_set(sv, i as int).contains(k@)) by {
                    if views(seen@).to_set().contains(k@) {
                        let kv = views(seen@);
                        let m = choose|m: int| 0 <= m < kv.len() && kv[m] == k@;
                        if m < pos {
                            assert(seq_lt(kv[m], k@));
                        } else {
                            assert(seq_lt(k@, kv[m]));
                        }
                        crate::order::lemma_lt_irreflexive(k@);
                    }
                }
            }
            let p = skill.update_policy.as_str();
            if !(str_eq(p, "latest") || str_eq(p, "pinned") || str_eq(p, "manual")) {
                proof {
                    lemma_first_error_stays(sv, i + 1, sv.len() as int);
                }
                return Err(ProfileError::UnsupportedPolicy { name: skill.name.clone(), policy: skill.update_policy.clone() });
            }
            let ghost kv0 = views(seen@);
            proof {
                lemma_insert_sorted(kv0, pos as int, k@);
            }
            seen.insert(pos, string_of(&k));
            proof {
                assert(views(seen@) =~= kv0.insert(pos as int, k@));
                assert(key_set(sv, i + 1) =~= key_set(sv, i as int).insert(k@)) by {
                    assert forall|x: Seq<char>| key_set(sv, i + 1).contains(x) implies key_set(sv, i as int).insert(k@).contains(x) by {
                        let m = choose|m: int| 0 <= m < i + 1 && #[trigger] sv[m].key == x;
                        if m < i {
                            assert(key_set(sv, i as int).contains(x));
                        }
                    }
                    assert forall|x: Seq<char>| key_set(sv, i as int).insert(k@).contains(x) implies key_set(sv, i + 1).contains(x) by {
                        if x == k@ {
                            assert(sv[i as int].key == x);
                        } else {
                            let m = choose|m: int| 0 <= m < i && #[trigger] sv[m].key == x;
                            assert(0 <= m < i + 1);
                        }
                    }
                }
            }
            i = i + 1;
        }
        Ok(())
    }
}

impl ConflictStrategy {
    /// The strategy a user names: `abort`, `local` or `remote`.
    pub fn parse(value: &str) -> (r: Result<ConflictStrategy, ProfileError>)
        ensures
            value@ == "abort"@ <==> r == Ok::<ConflictStrategy, ProfileError>(ConflictStrategy::Abort),
            value@ == "local"@ <==> r == Ok::<ConflictStrategy, ProfileError>(ConflictStrategy::Local),
            value@ == "remote"@ <==> r == Ok::<ConflictStrategy, ProfileError>(ConflictStrategy::Remote),
            r is Err ==> r == Err::<ConflictStrategy, ProfileError>(ProfileError::InvalidStrategy),
    {
        proof {
            lemma_strategy_names_differ();
        }
        if str_eq(value, "abort") {
            Ok(ConflictStrategy::Abort)
        } else if str_eq(value, "local") {
            Ok(ConflictStrategy::Local)
        } else if str_eq(value, "remote") {
            Ok(ConflictStrategy::Remote)
        } else {
            Err(ProfileError::InvalidStrategy)
        }
    }

    /// The name of this strategy.
    pub fn as_str(self) -> (r: &'static str)
        ensures
            r@ == strategy_name(self),
    {
        match self {
            ConflictStrategy::Abort => "abort",
            ConflictStrategy::Local => "local",
            ConflictStrategy::Remote => "remote",
        }
    }
}

pub open spec fn strategy_name(s: ConflictStrategy) -> Seq<char> {
    match s {
        ConflictStrategy::Abort => "abort"@,
        ConflictStrategy::Local => "local"@,
        ConflictStrategy::Remote => "remote"@,
    }
}

/// The name of a strategy is the name that parses to it, and to no other
/// strategy.
pub proof fn law_strategy_name_parses_back(s: ConflictStrategy)
    ensures
        (strategy_name(s) == "abort"@) == (s == ConflictStrategy::Abort),
        (strategy_name(s) == "local"@) == (s == ConflictStrategy::Local),
        (strategy_name(s) == "remote"@) == (s == ConflictStrategy::Remote),
{
    lemma_strategy_names_differ();
}

proof fn lemma_strategy_names_differ()
    ensures
        "abort"@ != "local"@,
        "abort"@ != "remote"@,
        "local"@ != "remote"@,
{
    reveal_strlit("abort");
    reveal_strlit("local");
    reveal_strlit("remote");
    assert("abort"@[0] != "local"@[0]);
    assert("abort"@[0] != "remote"@[0]);
    assert("local"@[0] != "remote"@[0]);
}


/// The identity a skill is recognised by across devices: its source type
/// (lowercase), normalized source reference, subpath and name (trimmed,
/// lowercase), one per line.
pub open spec fn skill_identity(r: SkillRecord, source_ref: Seq<char>) -> Seq<char> {
    lowercase(r.source_type@) + "\n"@ + spec_normalize_repository_url(trim(source_ref)) + "\n"@ + (match r.source_subpath {
        Some(p) => p@,
        None => Seq::empty(),
    }) + "\n"@ + lowercase(trim(r.name@))
}

/// The key of a Git or package skill in a profile: `v1:`, its source type
/// and the hex SHA-256 of its identity; none for other skills or without a
/// source reference.
pub open spec fn spec_stable_skill_key(r: SkillRecord) -> Option<Seq<char>> {
    if r.source_type@ != "git"@ && r.source_type@ != "package"@ {
        None
    } else {
        match r.source_ref {
            None => None,
            Some(s) => if trim(s@).len() == 0 {
                None
            } else {
                Some(
                    "v1:"@ + r.source_type@ + ":"@ + hex_lower(
                        sha256(vstd::utf8::encode_utf8(skill_identity(r, s@))),
                    ),
                )
            },
        }
    }
}

/// A skill keeps its profile key whether its GitHub repository is recorded
/// in the `https` or in the SSH form.
pub proof fn law_profile_key_ignores_github_transport(a: SkillRecord, b: SkillRecord, path: Seq<char>)
    requires
        crate::project::plain_repo_path(path),
        a.source_type@ == b.source_type@,
        a.name@ == b.name@,
        opt_view(a.source_subpath) == opt_view(b.source_subpath),
        a.source_ref is Some && a.source_ref.unwrap()@ == "https://github.com/"@ + path + ".git"@,
        b.source_ref is Some && b.source_ref.unwrap()@ == "git@github.com:"@ + path + ".git"@,
    ensures
        spec_stable_skill_key(a) == spec_stable_skill_key(b),
{
    crate::project::law_github_transports_normalize_alike(path);
    let sa = a.source_ref.unwrap()@;
    let sb = b.source_ref.unwrap()@;
    assert(skill_identity(a, sa) == skill_identity(b, sb));
}

/// The profile key of a managed skill.
pub fn stable_skill_key(record: &SkillRecord) -> (r: Option<String>)
    ensures
        opt_view(r) == spec_stable_skill_key(*record),
{
    if !str_eq(record.source_type.as_str(), "git") && !str_eq(record.source_type.as_str(), "package") {
        return None;
    }
    let source_ref = match &record.source_ref {
        None => return None,
        Some(s) => s,
    };
    if is_blank(source_ref.as_str()) {
        return None;
    }
    let mut v = chars_of(to_lowercase_str(record.source_type.as_str()).as_str());
    extend_vec(&mut v, &chars_of("\n"));
    extend_vec(&mut v, &chars_of(normalize_repository_url(trim_str(source_ref.as_str()).as_str()).as_str()));
    extend_vec(&mut v, &chars_of("\n"));
    match &record.source_subpath {
        Some(p) => extend_vec(&mut v, &chars_of(p.as_str())),
        None => {},
    }
    extend_vec(&mut v, &chars_of("\n"));
    extend_vec(&mut v, &chars_of(to_lowercase_str(trim_str(record.name.as_str()).as_str()).as_str()));
    let identity = string_of(&v);
    assert(identity@ =~= skill_identity(*record, source_ref@));
    let bytes = identity.as_str().as_bytes();
    let digest = sha256_digest(bytes);
    let mut key = chars_of("v1:");
    extend_vec(&mut key, &chars_of(record.source_type.as_str()));
    extend_vec(&mut key, &chars_of(":"));
    extend_vec(&mut key, &chars_of(hex_encode(&digest).as_str()));
    Some(string_of(&key))
}


/// The part of an application configuration that devices share: no local
/// paths and no credentials.
pub fn portable_config(config: &AppConfig) -> (r: PortableProfileConfig)
    ensures
        r@ == (ConfigV {
            language: opt_view(config.language),
            git_cache_cleanup_days: config.git_cache_cleanup_days,
            git_cache_ttl_secs: config.git_cache_ttl_secs,
            origin_rules: config.origin_rules@,
            explore_sources: source_views(config.explore_sources@),
        }),
{
    PortableProfileConfig {
        language: copy_opt(&config.language),
        git_cache_cleanup_days: config.git_cache_cleanup_days,
        git_cache_ttl_secs: config.git_cache_ttl_secs,
        origin_rules: crate::app_config::copy_rules(&config.origin_rules),
        explore_sources: crate::app_config::copy_sources(&config.explore_sources),
    }
}

fn skills_eq(a: &Vec<ProfileSkill>, b: &Vec<ProfileSkill>) -> (r: bool)
    ensures
        r == (skill_views(a@) == skill_views(b@)),
{
    if a.len() != b.len() {
        assert(skill_views(a@).len() != skill_views(b@).len());
        return false;
    }
    let mut i: usize = 0;
    while i < a.len()
        invariant
            a@.len() == b@.len(),
            i <= a@.len(),
            forall|k: int| 0 <= k < i ==> #[trigger] skill_views(a@)[k] == skill_views(b@)[k],
        decreases a.len() - i,
    {
        assert(skill_views(a@)[i as int] == a@[i as int]@ && skill_views(b@)[i as int] == b@[i as int]@);
        if !skill_eq(&a[i], &b[i]) {
            return false;
        }
        i = i + 1;
    }
    assert(skill_views(a@) =~= skill_views(b@));
    true
}

/// Whether two profiles hold the same desired state: the same id, shared
/// configuration and skills, whatever their generation and edit stamps.
pub fn document_semantic_equal(left: &ProfileDocument, right: &ProfileDocument) -> (r: bool)
    ensures
        r == (left@.profile_id == right@.profile_id && left@.config == right@.config && left@.skills
            == right@.skills),
{
    str_eq(left.profile_id.as_str(), right.profile_id.as_str()) && config_eq(&left.config, &right.config)
        && skills_eq(&left.skills, &right.skills)
}

} // verus!
