//! The unified application configuration model and its pure rules:
//! version validation, credential redaction for export, credential
//! preservation on import and origin-rule normalization.

use vstd::prelude::*;
use crate::explore::ExploreSourceConfig;
use crate::order::{insert_sorted_unique, sorted_strict, views};
use crate::text::{
    all_ascii, ascii_lower, chars_of, lemma_ascii_lower_is_lower, lemma_lower_ascii_fixed, lemma_lower_ascii_skip,
    lower_ascii, text_lower, decimal, decimal_string, has_prefix, has_suffix, is_blank, is_ws, lead_ws, lowercase, lowercase_vec, string_of,
    strip_prefix_all, strip_prefix_all_vec, strip_suffix_all, strip_suffix_all_vec,
    trim, trim_end, trim_start, trim_vec,
};

verus! {

/// Bump when the schema changes in a backward-incompatible way.
pub const CONFIG_VERSION: u32 = 1;

/// Settings key prefix for per-tool skills-directory overrides.
pub const TOOL_DIR_OVERRIDE_PREFIX: &'static str = "tool_global_dir_override_";
/// Settings key holding the custom scan directories (JSON array).
pub const CUSTOM_SCAN_DIRS_KEY: &'static str = "custom_scan_dirs";
/// Settings key holding the origin rules (JSON).
pub const ORIGIN_RULES_KEY: &'static str = "origin_rules_v1";
/// Settings key holding the WebDAV profile (JSON).
pub const WEBDAV_CONFIG_KEY: &'static str = "webdav_config";

/// Source-classification rules (which remotes count as "mine" vs "official").
#[derive(Debug, Clone)]
pub struct OriginRules {
    pub my_git_owners: Vec<String>,
    pub my_git_repos: Vec<String>,
    pub official_git_repos: Vec<String>,
}

impl Default for OriginRules {
    fn default() -> (r: Self)
        ensures
            r.my_git_owners@.len() == 0,
            r.my_git_repos@.len() == 0,
            r.official_git_repos@.len() == 0,
    {
        OriginRules { my_git_owners: Vec::new(), my_git_repos: Vec::new(), official_git_repos: Vec::new() }
    }
}

/// A user-added local directory scanned for existing skills.
#[derive(Debug, Clone)]
pub struct CustomScanDirEntry {
    pub name: String,
    pub path: String,
}

/// Per-tool skills directory override (empty / default when not overridden).
#[derive(Debug, Clone)]
pub struct ToolDirOverride {
    pub tool_key: String,
    pub label: String,
    pub default_dir: String,
    pub current_dir: String,
    pub has_override: bool,
}

/// WebDAV connection profile used for remote backup / restore.
#[derive(Debug, Clone)]
pub struct WebDavConfig {
    pub url: String,
    pub user: String,
    pub password: String,
    /// Remote directory (path on the WebDAV server) where backups are stored.
    pub remote_dir: String,
}

impl Default for WebDavConfig {
    fn default() -> (r: Self)
        ensures
            r.url@.len() == 0,
            r.user@.len() == 0,
            r.password@.len() == 0,
            r.remote_dir@.len() == 0,
    {
        WebDavConfig { url: String::new(), user: String::new(), password: String::new(), remote_dir: String::new() }
    }
}

/// The aggregated, serializable application configuration.
#[derive(Debug, Clone)]
pub struct AppConfig {
    pub config_version: u32,
    /// UI language (`en` / `zh`).
    pub language: Option<String>,
    /// Central skills repository path override.
    pub storage_path: Option<String>,
    pub git_cache_cleanup_days: i64,
    pub git_cache_ttl_secs: i64,
    pub github_token: String,
    pub origin_rules: OriginRules,
    pub tool_dir_overrides: Vec<ToolDirOverride>,
    pub custom_scan_dirs: Vec<CustomScanDirEntry>,
    pub explore_sources: Vec<ExploreSourceConfig>,
    /// WebDAV connection profile for remote backup / restore.
    pub webdav: Option<WebDavConfig>,
    /// Set only when exporting a backup; ignored on import.
    pub exported_at: Option<String>,
}

impl Default for AppConfig {
    fn default() -> (r: Self)
        ensures
            r.config_version == 0,
            r.language is None,
            r.storage_path is None,
            r.git_cache_cleanup_days == 0,
            r.git_cache_ttl_secs == 0,
            r.github_token@.len() == 0,
            r.origin_rules.my_git_owners@.len() == 0,
            r.origin_rules.my_git_repos@.len() == 0,
            r.origin_rules.official_git_repos@.len() == 0,
            r.tool_dir_overrides@.len() == 0,
            r.custom_scan_dirs@.len() == 0,
            r.explore_sources@.len() == 0,
            r.webdav is None,
            r.exported_at is None,
    {
        AppConfig {
            config_version: 0,
            language: None,
            storage_path: None,
            git_cache_cleanup_days: 0,
            git_cache_ttl_secs: 0,
            github_token: String::new(),
            origin_rules: OriginRules::default(),
            tool_dir_overrides: Vec::new(),
            custom_scan_dirs: Vec::new(),
            explore_sources: Vec::new(),
            webdav: None,
            exported_at: None,
        }
    }
}


/// The contents of [`OriginRules`].
pub struct OriginRulesView {
    pub my_git_owners: Seq<Seq<char>>,
    pub my_git_repos: Seq<Seq<char>>,
    pub official_git_repos: Seq<Seq<char>>,
}

impl View for OriginRules {
    type V = OriginRulesView;

    open spec fn view(&self) -> OriginRulesView {
        OriginRulesView {
            my_git_owners: views(self.my_git_owners@),
            my_git_repos: views(self.my_git_repos@),
            official_git_repos: views(self.official_git_repos@),
        }
    }
}

/// The contents of a [`ToolDirOverride`].
pub struct ToolDirOverrideView {
    pub tool_key: Seq<char>,
    pub label: Seq<char>,
    pub default_dir: Seq<char>,
    pub current_dir: Seq<char>,
    pub has_override: bool,
}

impl View for ToolDirOverride {
    type V = ToolDirOverrideView;

    open spec fn view(&self) -> ToolDirOverrideView {
        ToolDirOverrideView {
            tool_key: self.tool_key@,
            label: self.label@,
            default_dir: self.default_dir@,
            current_dir: self.current_dir@,
            has_override: self.has_override,
        }
    }
}

/// The contents of a [`WebDavConfig`].
pub struct WebDavView {
    pub url: Seq<char>,
    pub user: Seq<char>,
    pub password: Seq<char>,
    pub remote_dir: Seq<char>,
}

impl View for WebDavConfig {
    type V = WebDavView;

    open spec fn view(&self) -> WebDavView {
        WebDavView { url: self.url@, user: self.user@, password: self.password@, remote_dir: self.remote_dir@ }
    }
}

pub open spec fn opt_view(s: Option<String>) -> Option<Seq<char>> {
    match s {
        Some(v) => Some(v@),
        None => None,
    }
}

/// The contents of an [`AppConfig`].
pub struct AppConfigView {
    pub config_version: u32,
    pub language: Option<Seq<char>>,
    pub storage_path: Option<Seq<char>>,
    pub git_cache_cleanup_days: i64,
    pub git_cache_ttl_secs: i64,
    pub github_token: Seq<char>,
    pub origin_rules: OriginRulesView,
    pub tool_dir_overrides: Seq<ToolDirOverrideView>,
    pub custom_scan_dirs: Seq<(Seq<char>, Seq<char>)>,
    pub explore_sources: Seq<crate::explore::SourceView>,
    pub webdav: Option<WebDavView>,
    pub exported_at: Option<Seq<char>>,
}

impl View for AppConfig {
    type V = AppConfigView;

    open spec fn view(&self) -> AppConfigView {
        AppConfigView {
            config_version: self.config_version,
            language: opt_view(self.language),
            storage_path: opt_view(self.storage_path),
            git_cache_cleanup_days: self.git_cache_cleanup_days,
            git_cache_ttl_secs: self.git_cache_ttl_secs,
            github_token: self.github_token@,
            origin_rules: self.origin_rules@,
            tool_dir_overrides: self.tool_dir_overrides@.map_values(|o: ToolDirOverride| o@),
            custom_scan_dirs: self.custom_scan_dirs@.map_values(|e: CustomScanDirEntry| (e.name@, e.path@)),
            explore_sources: crate::explore::source_views(self.explore_sources@),
            webdav: match self.webdav {
                Some(w) => Some(w@),
                None => None,
            },
            exported_at: opt_view(self.exported_at),
        }
    }
}

/// Why an imported configuration was rejected.
#[derive(Debug, Clone, Copy, PartialEq, Eq)]
pub enum ConfigError {
    /// Written by a newer application version than this one supports.
    NewerVersion { found: u32, supported: u32 },
    /// An explore source lacks an id or a name.
    SourceMissingIdOrName,
}

/// An explore source whose id or name is blank.
pub open spec fn source_lacks_id_or_name(s: ExploreSourceConfig) -> bool {
    trim(s.id@).len() == 0 || trim(s.name@).len() == 0
}

/// The validation outcome of a configuration.
pub open spec fn spec_validate(cfg: AppConfig) -> Result<(), ConfigError> {
    if cfg.config_version > CONFIG_VERSION {
        Err(ConfigError::NewerVersion { found: cfg.config_version, supported: CONFIG_VERSION })
    } else if exists|i: int| 0 <= i < cfg.explore_sources@.len() && #[trigger] source_lacks_id_or_name(cfg.explore_sources@[i]) {
        Err(ConfigError::SourceMissingIdOrName)
    } else {
        Ok(())
    }
}

/// `cfg` with the GitHub token and the WebDAV password emptied.
pub open spec fn sanitized_view(cfg: AppConfigView) -> AppConfigView {
    AppConfigView {
        github_token: Seq::empty(),
        webdav: match cfg.webdav {
            Some(w) => Some(WebDavView { password: Seq::empty(), ..w }),
            None => None,
        },
        ..cfg
    }
}

/// `imported` with the local credentials of `current` filled in where it has
/// none: the GitHub token when empty, and the WebDAV password when empty and
/// the server URL and user are unchanged.
pub open spec fn preserved_view(imported: AppConfigView, current: AppConfigView) -> AppConfigView {
    AppConfigView {
        github_token: if imported.github_token.len() == 0 {
            current.github_token
        } else {
            imported.github_token
        },
        webdav: match (imported.webdav, current.webdav) {
            (Some(i), Some(e)) => if i.password.len() == 0 && i.url == e.url && i.user == e.user {
                Some(WebDavView { password: e.password, ..i })
            } else {
                Some(i)
            },
            (w, _) => w,
        },
        ..imported
    }
}

/// Exporting a configuration and importing it back on the same machine
/// restores it exactly: the redacted credentials are filled in again from
/// the local configuration.
pub proof fn law_export_import_roundtrip(cfg: AppConfigView)
    ensures
        preserved_view(sanitized_view(cfg), cfg) == cfg,
{
    if cfg.webdav is Some {
        let e = cfg.webdav.unwrap();
        assert(WebDavView { password: e.password, ..WebDavView { password: Seq::empty(), ..e } } == e);
    }
}

/// An exported configuration carries no credential.
pub proof fn law_export_has_no_secrets(cfg: AppConfigView)
    ensures
        sanitized_view(cfg).github_token.len() == 0,
        sanitized_view(cfg).webdav is Some ==> sanitized_view(cfg).webdav.unwrap().password.len() == 0,
{
}

impl ConfigError {
    /// The user-facing message for this error.
    pub fn message(&self) -> (r: String)
        ensures
            r@ == spec_config_error_message(*self),
    {
        match self {
            ConfigError::NewerVersion { found, supported } => {
                let mut v = chars_of("配置文件由更新版本 (v");
                crate::text::extend_vec(&mut v, &crate::text::decimal_vec(*found as u64));
                crate::text::extend_vec(&mut v, &chars_of(") 生成，当前应用仅支持 v"));
                crate::text::extend_vec(&mut v, &crate::text::decimal_vec(*supported as u64));
                crate::text::extend_vec(&mut v, &chars_of("；请先升级应用或选择兼容的备份。"));
                string_of(&v)
            },
            ConfigError::SourceMissingIdOrName => crate::text::owned("技能源配置缺少 id 或 name，导入已中止"),
        }
    }
}

pub open spec fn spec_config_error_message(e: ConfigError) -> Seq<char> {
    match e {
        ConfigError::NewerVersion { found, supported } => "配置文件由更新版本 (v"@ + decimal(found as nat)
            + ") 生成，当前应用仅支持 v"@ + decimal(supported as nat) + "；请先升级应用或选择兼容的备份。"@,
        ConfigError::SourceMissingIdOrName => "技能源配置缺少 id 或 name，导入已中止"@,
    }
}

impl AppConfig {
    /// Validate structural integrity and version compatibility of an
    /// imported configuration.
    pub fn validate(&self) -> (r: Result<(), ConfigError>)
        ensures
            r == spec_validate(*self),
    {
        if self.config_version > CONFIG_VERSION {
            return Err(ConfigError::NewerVersion { found: self.config_version, supported: CONFIG_VERSION });
        }
        let mut i: usize = 0;
        while i < self.explore_sources.len()
            invariant
                i <= self.explore_sources@.len(),
                self.config_version <= CONFIG_VERSION,
                forall|k: int| 0 <= k < i ==> !#[trigger] source_lacks_id_or_name(self.explore_sources@[k]),
            decreases self.explore_sources.len() - i,
        {
            let src = &self.explore_sources[i];
            if is_blank(src.id.as_str()) || is_blank(src.name.as_str()) {
                assert(source_lacks_id_or_name(self.explore_sources@[i as int]));
                return Err(ConfigError::SourceMissingIdOrName);
            }
            assert(!source_lacks_id_or_name(self.explore_sources@[i as int]));
            i = i + 1;
        }
        Ok(())
    }

    /// A portable copy that does not expose authentication secrets.
    pub fn sanitized_for_export(&self) -> (r: Self)
        ensures
            r@ == sanitized_view(self@),
    {
        let webdav = match &self.webdav {
            Some(w) => Some(WebDavConfig {
                url: w.url.clone(),
                user: w.user.clone(),
                password: String::new(),
                remote_dir: w.remote_dir.clone(),
            }),
            None => None,
        };
        AppConfig {
            config_version: self.config_version,
            language: crate::text::copy_opt(&self.language),
            storage_path: crate::text::copy_opt(&self.storage_path),
            git_cache_cleanup_days: self.git_cache_cleanup_days,
            git_cache_ttl_secs: self.git_cache_ttl_secs,
            github_token: String::new(),
            origin_rules: copy_rules(&self.origin_rules),
            tool_dir_overrides: copy_overrides(&self.tool_dir_overrides),
            custom_scan_dirs: copy_scan_dirs(&self.custom_scan_dirs),
            explore_sources: copy_sources(&self.explore_sources),
            webdav,
            exported_at: crate::text::copy_opt(&self.exported_at),
        }
    }

    /// Keep locally configured credentials when importing a sanitized backup.
    pub fn preserve_missing_secrets_from(&mut self, current: &Self)
        ensures
            final(self)@ == preserved_view(old(self)@, current@),
    {
        if self.github_token.as_str().is_empty() {
            self.github_token = current.github_token.clone();
        }
        let taken = self.webdav.take();
        self.webdav = match (taken, &current.webdav) {
            (Some(mut imported), Some(existing)) => {
                if imported.password.as_str().is_empty() && crate::text::str_eq(imported.url.as_str(), existing.url.as_str())
                    && crate::text::str_eq(imported.user.as_str(), existing.user.as_str()) {
                    imported.password = existing.password.clone();
                }
                Some(imported)
            },
            (w, _) => w,
        };
    }
}

/// The most days the Git cache cleanup may be set to.
pub const MAX_GIT_CACHE_CLEANUP_DAYS: i64 = 3650;

/// The most seconds the Git cache may be kept fresh.
pub const MAX_GIT_CACHE_TTL_SECS: i64 = 3600;

/// `v` brought within `lo..=hi`.
pub open spec fn clamped(v: i64, lo: i64, hi: i64) -> i64 {
    if v < lo { lo } else if v > hi { hi } else { v }
}

impl AppConfig {
    /// The configuration as it is stored: cache settings within their
    /// bounds, the GitHub token trimmed, and the origin rules normalized.
    pub fn prepared_for_save(&self) -> (r: Self)
        ensures
            r@ == (AppConfigView {
                git_cache_cleanup_days: clamped(self.git_cache_cleanup_days, 0, MAX_GIT_CACHE_CLEANUP_DAYS),
                git_cache_ttl_secs: clamped(self.git_cache_ttl_secs, 0, MAX_GIT_CACHE_TTL_SECS),
                github_token: trim(self.github_token@),
                origin_rules: r@.origin_rules,
                ..self@
            }),
            is_normalized_list(r@.origin_rules.my_git_owners, self@.origin_rules.my_git_owners),
            is_normalized_list(r@.origin_rules.my_git_repos, self@.origin_rules.my_git_repos),
            is_normalized_list(r@.origin_rules.official_git_repos, self@.origin_rules.official_git_repos),
    {
        let days = self.git_cache_cleanup_days;
        let ttl = self.git_cache_ttl_secs;
        let webdav = match &self.webdav {
            Some(w) => Some(WebDavConfig {
                url: w.url.clone(),
                user: w.user.clone(),
                password: w.password.clone(),
                remote_dir: w.remote_dir.clone(),
            }),
            None => None,
        };
        AppConfig {
            config_version: self.config_version,
            language: crate::text::copy_opt(&self.language),
            storage_path: crate::text::copy_opt(&self.storage_path),
            git_cache_cleanup_days: if days < 0 { 0 } else if days > MAX_GIT_CACHE_CLEANUP_DAYS { MAX_GIT_CACHE_CLEANUP_DAYS } else { days },
            git_cache_ttl_secs: if ttl < 0 { 0 } else if ttl > MAX_GIT_CACHE_TTL_SECS { MAX_GIT_CACHE_TTL_SECS } else { ttl },
            github_token: crate::text::trim_str(self.github_token.as_str()),
            origin_rules: normalize_rules(copy_rules(&self.origin_rules)),
            tool_dir_overrides: copy_overrides(&self.tool_dir_overrides),
            custom_scan_dirs: copy_scan_dirs(&self.custom_scan_dirs),
            explore_sources: copy_sources(&self.explore_sources),
            webdav,
            exported_at: crate::text::copy_opt(&self.exported_at),
        }
    }
}

pub(crate) fn copy_rules(r: &OriginRules) -> (c: OriginRules)
    ensures
        c@ == r@,
{
    OriginRules {
        my_git_owners: crate::text::copy_strings(&r.my_git_owners),
        my_git_repos: crate::text::copy_strings(&r.my_git_repos),
        official_git_repos: crate::text::copy_strings(&r.official_git_repos),
    }
}

fn copy_overrides(v: &Vec<ToolDirOverride>) -> (r: Vec<ToolDirOverride>)
    ensures
        r@ == v@,
{
    let mut r: Vec<ToolDirOverride> = Vec::new();
    let mut i: usize = 0;
    while i < v.len()
        invariant
            i <= v@.len(),
            r@ == v@.subrange(0, i as int),
        decreases v.len() - i,
    {
        let o = &v[i];
        r.push(ToolDirOverride {
            tool_key: o.tool_key.clone(),
            label: o.label.clone(),
            default_dir: o.default_dir.clone(),
            current_dir: o.current_dir.clone(),
            has_override: o.has_override,
        });
        i = i + 1;
        assert(r@ =~= v@.subrange(0, i as int));
    }
    assert(v@.subrange(0, v@.len() as int) =~= v@);
    r
}

/// The name and path of each scan directory.
pub open spec fn scan_dir_views(v: Seq<CustomScanDirEntry>) -> Seq<(Seq<char>, Seq<char>)> {
    v.map_values(|e: CustomScanDirEntry| (e.name@, e.path@))
}

/// Add a scan directory unless one with the same path is listed already.
pub fn add_scan_dir(dirs: &mut Vec<CustomScanDirEntry>, name: &str, path: &str)
    ensures
        if exists|j: int| 0 <= j < old(dirs)@.len() && (#[trigger] old(dirs)@[j]).path@ == path@ {
            scan_dir_views(final(dirs)@) == scan_dir_views(old(dirs)@)
        } else {
            scan_dir_views(final(dirs)@) == scan_dir_views(old(dirs)@).push((name@, path@))
        },
{
    let mut i: usize = 0;
    while i < dirs.len()
        invariant
            i <= dirs@.len(),
            dirs@ == old(dirs)@,
            forall|j: int| 0 <= j < i ==> (#[trigger] dirs@[j]).path@ != path@,
        decreases dirs.len() - i,
    {
        if crate::text::str_eq(dirs[i].path.as_str(), path) {
            return;
        }
        i = i + 1;
    }
    let ghost before = dirs@;
    dirs.push(CustomScanDirEntry { name: crate::text::owned(name), path: crate::text::owned(path) });
    assert(scan_dir_views(dirs@) =~= scan_dir_views(before).push((name@, path@)));
}

/// The scan directories whose path is not `path`, in order.
pub open spec fn scan_dirs_without(v: Seq<(Seq<char>, Seq<char>)>, path: Seq<char>) -> Seq<(Seq<char>, Seq<char>)>
    decreases v.len(),
{
    if v.len() == 0 {
        Seq::empty()
    } else {
        let rest = scan_dirs_without(v.drop_last(), path);
        if v.last().1 == path { rest } else { rest.push(v.last()) }
    }
}

/// Remove every scan directory with this path.
pub fn remove_scan_dir(dirs: &mut Vec<CustomScanDirEntry>, path: &str)
    ensures
        scan_dir_views(final(dirs)@) == scan_dirs_without(scan_dir_views(old(dirs)@), path@),
{
    let ghost before = scan_dir_views(dirs@);
    let mut kept: Vec<CustomScanDirEntry> = Vec::new();
    let mut i: usize = 0;
    while i < dirs.len()
        invariant
            i <= dirs@.len(),
            before == scan_dir_views(dirs@),
            scan_dir_views(kept@) == scan_dirs_without(before.take(i as int), path@),
        decreases dirs.len() - i,
    {
        let ghost t = before.take(i + 1);
        assert(t.drop_last() =~= before.take(i as int));
        assert(t.last() == before[i as int]);
        if !crate::text::str_eq(dirs[i].path.as_str(), path) {
            let ghost k0 = scan_dir_views(kept@);
            kept.push(CustomScanDirEntry {
                name: crate::text::owned(dirs[i].name.as_str()),
                path: crate::text::owned(dirs[i].path.as_str()),
            });
            assert(scan_dir_views(kept@) =~= k0.push(before[i as int]));
        }
        i = i + 1;
    }
    assert(before.take(before.len() as int) =~= before);
    *dirs = kept;
}

fn copy_scan_dirs(v: &Vec<CustomScanDirEntry>) -> (r: Vec<CustomScanDirEntry>)
    ensures
        r@ == v@,
{
    let mut r: Vec<CustomScanDirEntry> = Vec::new();
    let mut i: usize = 0;
    while i < v.len()
        invariant
            i <= v@.len(),
            r@ == v@.subrange(0, i as int),
        decreases v.len() - i,
    {
        r.push(CustomScanDirEntry { name: v[i].name.clone(), path: v[i].path.clone() });
        i = i + 1;
        assert(r@ =~= v@.subrange(0, i as int));
    }
    assert(v@.subrange(0, v@.len() as int) =~= v@);
    r
}

/// A copy of a list of explore sources.
pub fn copy_sources(v: &Vec<ExploreSourceConfig>) -> (r: Vec<ExploreSourceConfig>)
    ensures
        r@ == v@,
{
    let mut r: Vec<ExploreSourceConfig> = Vec::new();
    let mut i: usize = 0;
    while i < v.len()
        invariant
            i <= v@.len(),
            r@ == v@.subrange(0, i as int),
        decreases v.len() - i,
    {
        let s = &v[i];
        r.push(ExploreSourceConfig {
            id: s.id.clone(),
            name: s.name.clone(),
            kind: s.kind.clone(),
            endpoint: s.endpoint.clone(),
            enabled: s.enabled,
            builtin: s.builtin,
        });
        i = i + 1;
        assert(r@ =~= v@.subrange(0, i as int));
    }
    assert(v@.subrange(0, v@.len() as int) =~= v@);
    r
}


/// One pass of stripping an origin-rule item: surrounding whitespace, a
/// leading `https://`, `http://` and `www.`, and a trailing `.git`.
pub open spec fn rule_strip_step(y: Seq<char>) -> Seq<char> {
    let a = strip_prefix_all(trim(y), "https://"@);
    let b = strip_prefix_all(a, "http://"@);
    let c = strip_prefix_all(b, "www."@);
    trim(strip_suffix_all(c, ".git"@))
}

proof fn lemma_prefix_shrinks(s: Seq<char>, p: Seq<char>)
    ensures
        strip_prefix_all(s, p).len() <= s.len(),
        strip_prefix_all(s, p).len() == s.len() ==> strip_prefix_all(s, p) == s,
    decreases s.len(),
{
    if p.len() > 0 && has_prefix(s, p) {
        lemma_prefix_shrinks(s.skip(p.len() as int), p);
    }
}

proof fn lemma_suffix_shrinks(s: Seq<char>, p: Seq<char>)
    ensures
        strip_suffix_all(s, p).len() <= s.len(),
        strip_suffix_all(s, p).len() == s.len() ==> strip_suffix_all(s, p) == s,
    decreases s.len(),
{
    if p.len() > 0 && has_suffix(s, p) {
        lemma_suffix_shrinks(s.subrange(0, s.len() - p.len()), p);
    }
}

proof fn lemma_lead_ws_bound(s: Seq<char>)
    ensures
        lead_ws(s) <= s.len(),
    decreases s.len(),
{
    if s.len() > 0 && is_ws(s[0]) {
        lemma_lead_ws_bound(s.drop_first());
    }
}

proof fn lemma_trim_end_shrinks(s: Seq<char>)
    ensures
        trim_end(s).len() <= s.len(),
        trim_end(s).len() == s.len() ==> trim_end(s) == s,
    decreases s.len(),
{
    if s.len() > 0 && is_ws(s.last()) {
        lemma_trim_end_shrinks(s.drop_last());
    }
}

proof fn lemma_trim_shrinks(s: Seq<char>)
    ensures
        trim(s).len() <= s.len(),
        trim(s).len() == s.len() ==> trim(s) == s,
{
    lemma_lead_ws_bound(s);
    let t = trim_start(s);
    lemma_trim_end_shrinks(t);
    if lead_ws(s) == 0 {
        assert(t =~= s);
    }
}

pub proof fn lemma_step_shrinks(y: Seq<char>)
    ensures
        rule_strip_step(y).len() <= y.len(),
        rule_strip_step(y).len() == y.len() ==> rule_strip_step(y) == y,
{
    let t = trim(y);
    lemma_trim_shrinks(y);
    let a = strip_prefix_all(t, "https://"@);
    lemma_prefix_shrinks(t, "https://"@);
    let b = strip_prefix_all(a, "http://"@);
    lemma_prefix_shrinks(a, "http://"@);
    let c = strip_prefix_all(b, "www."@);
    lemma_prefix_shrinks(b, "www."@);
    let d = strip_suffix_all(c, ".git"@);
    lemma_suffix_shrinks(c, ".git"@);
    lemma_trim_shrinks(d);
}

/// Strip an origin-rule item pass after pass until a pass changes nothing.
pub open spec fn rule_stripped(y: Seq<char>) -> Seq<char>
    decreases y.len(),
{
    if rule_strip_step(y) == y {
        y
    } else {
        proof {
            lemma_step_shrinks(y);
        }
        rule_stripped(rule_strip_step(y))
    }
}

proof fn lemma_stripped_is_stable(y: Seq<char>)
    ensures
        rule_strip_step(rule_stripped(y)) == rule_stripped(y),
    decreases y.len(),
{
    if rule_strip_step(y) != y {
        lemma_step_shrinks(y);
        lemma_stripped_is_stable(rule_strip_step(y));
    }
}

/// An origin-rule item in canonical form: lowercased, then stripped of
/// surrounding whitespace, leading `https://`, `http://` and `www.`, and
/// trailing `.git`, until nothing more comes off.
pub open spec fn spec_normalize_rule_item(v: Seq<char>) -> Seq<char> {
    rule_stripped(text_lower(v))
}


fn rule_strip_step_vec(y: &Vec<char>) -> (r: Vec<char>)
    ensures
        r@ == rule_strip_step(y@),
{
    let a = strip_prefix_all_vec(&trim_vec(y), &chars_of("https://"));
    let b = strip_prefix_all_vec(&a, &chars_of("http://"));
    let c = strip_prefix_all_vec(&b, &chars_of("www."));
    trim_vec(&strip_suffix_all_vec(&c, &chars_of(".git")))
}

/// Normalize a single origin-rule item for stable comparison.
pub fn normalize_rule_item(value: &str) -> (r: String)
    ensures
        r@ == spec_normalize_rule_item(value@),
{
    let mut y = lowercase_vec(&chars_of(value));
    assert(y@ == text_lower(value@));
    loop
        invariant
            rule_stripped(y@) == spec_normalize_rule_item(value@),
        decreases y@.len(),
    {
        let z = rule_strip_step_vec(&y);
        if crate::text::vec_eq(&z, &y) {
            return string_of(&y);
        }
        proof {
            lemma_step_shrinks(y@);
        }
        y = z;
    }
}

proof fn lemma_lower_ascii_prefix(s: Seq<char>, p: Seq<char>)
    requires
        lower_ascii(s),
    ensures
        lower_ascii(strip_prefix_all(s, p)),
    decreases s.len(),
{
    if p.len() > 0 && has_prefix(s, p) {
        lemma_lower_ascii_skip(s, p.len() as int);
        lemma_lower_ascii_prefix(s.skip(p.len() as int), p);
    }
}

proof fn lemma_lower_ascii_suffix(s: Seq<char>, p: Seq<char>)
    requires
        lower_ascii(s),
    ensures
        lower_ascii(strip_suffix_all(s, p)),
    decreases s.len(),
{
    if p.len() > 0 && has_suffix(s, p) {
        lemma_lower_ascii_skip(s, s.len() - p.len());
        assert(s.subrange(0, s.len() - p.len()) =~= s.take(s.len() - p.len()));
        lemma_lower_ascii_suffix(s.subrange(0, s.len() - p.len()), p);
    }
}

proof fn lemma_lower_ascii_trim_end(s: Seq<char>)
    requires
        lower_ascii(s),
    ensures
        lower_ascii(trim_end(s)),
    decreases s.len(),
{
    if s.len() > 0 && is_ws(s.last()) {
        lemma_lower_ascii_skip(s, s.len() - 1);
        assert(s.drop_last() =~= s.take(s.len() - 1));
        lemma_lower_ascii_trim_end(s.drop_last());
    }
}

proof fn lemma_lower_ascii_trim(s: Seq<char>)
    requires
        lower_ascii(s),
    ensures
        lower_ascii(trim(s)),
{
    lemma_lead_ws_bound(s);
    lemma_lower_ascii_skip(s, lead_ws(s) as int);
    lemma_lower_ascii_trim_end(trim_start(s));
}

proof fn lemma_lower_ascii_stripped(y: Seq<char>)
    requires
        lower_ascii(y),
    ensures
        lower_ascii(rule_stripped(y)),
    decreases y.len(),
{
    if rule_strip_step(y) != y {
        lemma_lower_ascii_trim(y);
        let a = strip_prefix_all(trim(y), "https://"@);
        lemma_lower_ascii_prefix(trim(y), "https://"@);
        let b = strip_prefix_all(a, "http://"@);
        lemma_lower_ascii_prefix(a, "http://"@);
        let c = strip_prefix_all(b, "www."@);
        lemma_lower_ascii_prefix(b, "www."@);
        lemma_lower_ascii_suffix(c, ".git"@);
        lemma_lower_ascii_trim(strip_suffix_all(c, ".git"@));
        lemma_step_shrinks(y);
        lemma_lower_ascii_stripped(rule_strip_step(y));
    }
}

/// Normalizing a rule item again gives it back, for every ASCII item, and
/// for any other item whose normal form `str::to_lowercase` leaves as it
/// is.
pub proof fn law_normalized_rule_item_is_stable(v: Seq<char>)
    requires
        all_ascii(v) || text_lower(spec_normalize_rule_item(v)) == spec_normalize_rule_item(v),
    ensures
        spec_normalize_rule_item(spec_normalize_rule_item(v)) == spec_normalize_rule_item(v),
{
    let z = spec_normalize_rule_item(v);
    lemma_stripped_is_stable(text_lower(v));
    if all_ascii(v) {
        lemma_ascii_lower_is_lower(v);
        lemma_lower_ascii_stripped(ascii_lower(v));
        lemma_lower_ascii_fixed(z);
    }
}

/// The non-empty canonical forms of the first `n` items of a rule list.
pub open spec fn normalized_rule_set(items: Seq<Seq<char>>, n: int) -> Set<Seq<char>> {
    Set::new(|x: Seq<char>| x.len() > 0 && exists|i: int| 0 <= i < n && #[trigger] spec_normalize_rule_item(items[i]) == x)
}

/// A rule list in storage form: strictly sorted, hence without duplicates,
/// holding exactly the non-empty canonical forms of the given items.
pub open spec fn is_normalized_list(r: Seq<Seq<char>>, items: Seq<Seq<char>>) -> bool {
    sorted_strict(r) && r.to_set() == normalized_rule_set(items, items.len() as int)
}

fn normalize_rule_list(items: &Vec<String>) -> (r: Vec<String>)
    ensures
        is_normalized_list(views(r@), views(items@)),
{
    let mut out: Vec<String> = Vec::new();
    let mut i: usize = 0;
    let ghost iv = views(items@);
    assert(views(out@).to_set() =~= normalized_rule_set(iv, 0));
    while i < items.len()
        invariant
            i <= items@.len(),
            iv == views(items@),
            sorted_strict(views(out@)),
            views(out@).to_set() == normalized_rule_set(iv, i as int),
        decreases items.len() - i,
    {
        let n = normalize_rule_item(items[i].as_str());
        let ghost before = views(out@).to_set();
        assert(iv[i as int] == items@[i as int]@);
        if !n.as_str().is_empty() {
            insert_sorted_unique(&mut out, n);
            assert(views(out@).to_set() =~= normalized_rule_set(iv, i + 1)) by {
                assert forall|x: Seq<char>| normalized_rule_set(iv, i + 1).contains(x) implies #[trigger] before.insert(spec_normalize_rule_item(iv[i as int])).contains(x) by {
                    let k = choose|k: int| 0 <= k < i + 1 && #[trigger] spec_normalize_rule_item(iv[k]) == x;
                    if k < i {
                        assert(normalized_rule_set(iv, i as int).contains(x));
                    }
                }
                assert forall|x: Seq<char>| before.insert(spec_normalize_rule_item(iv[i as int])).contains(x) implies #[trigger] normalized_rule_set(iv, i + 1).contains(x) by {
                    if x != spec_normalize_rule_item(iv[i as int]) {
                        let k = choose|k: int| 0 <= k < i && #[trigger] spec_normalize_rule_item(iv[k]) == x;
                        assert(0 <= k < i + 1);
                    }
                }
            }
        } else {
            assert(views(out@).to_set() =~= normalized_rule_set(iv, i + 1)) by {
                assert forall|x: Seq<char>| normalized_rule_set(iv, i + 1).contains(x) implies #[trigger] before.contains(x) by {
                    let k = choose|k: int| 0 <= k < i + 1 && #[trigger] spec_normalize_rule_item(iv[k]) == x;
                    if k < i {
                        assert(normalized_rule_set(iv, i as int).contains(x));
                    }
                }
                assert forall|x: Seq<char>| before.contains(x) implies #[trigger] normalized_rule_set(iv, i + 1).contains(x) by {
                    let k = choose|k: int| 0 <= k < i && #[trigger] spec_normalize_rule_item(iv[k]) == x;
                    assert(0 <= k < i + 1);
                }
            }
        }
        i = i + 1;
    }
    out
}

/// A rule list in storage form comes back unchanged when it is normalized
/// again: rules read back from storage equal the rules stored, for ASCII
/// rules and for any other rule whose normal form `str::to_lowercase`
/// leaves as it is.
pub proof fn law_normalized_rules_are_stable(items: Seq<Seq<char>>, stored: Seq<Seq<char>>, again: Seq<Seq<char>>)
    requires
        is_normalized_list(stored, items),
        is_normalized_list(again, stored),
        forall|i: int| 0 <= i < items.len() ==> all_ascii(#[trigger] items[i])
            || text_lower(spec_normalize_rule_item(items[i])) == spec_normalize_rule_item(items[i]),
    ensures
        again == stored,
{
    assert forall|x: Seq<char>| again.to_set().contains(x) <==> stored.to_set().contains(x) by {
        if again.to_set().contains(x) {
            assert(normalized_rule_set(stored, stored.len() as int).contains(x));
            let k = choose|k: int| 0 <= k < stored.len() && #[trigger] spec_normalize_rule_item(stored[k]) == x;
            assert(stored.to_set().contains(stored[k]));
            assert(normalized_rule_set(items, items.len() as int).contains(stored[k]));
            let j = choose|j: int| 0 <= j < items.len() && #[trigger] spec_normalize_rule_item(items[j]) == stored[k];
            law_normalized_rule_item_is_stable(items[j]);
        }
        if stored.to_set().contains(x) {
            let k = choose|k: int| 0 <= k < stored.len() && stored[k] == x;
            assert(normalized_rule_set(items, items.len() as int).contains(x));
            let j = choose|j: int| 0 <= j < items.len() && #[trigger] spec_normalize_rule_item(items[j]) == x;
            law_normalized_rule_item_is_stable(items[j]);
            assert(spec_normalize_rule_item(stored[k]) == x);
            assert(normalized_rule_set(stored, stored.len() as int).contains(x));
        }
    }
    assert(again.to_set() =~= stored.to_set());
    crate::order::lemma_sorted_unique(again, stored);
}

/// Deduplicate and sort origin rules for stable, comparable storage.
pub fn normalize_rules(rules: OriginRules) -> (r: OriginRules)
    ensures
        is_normalized_list(r@.my_git_owners, rules@.my_git_owners),
        is_normalized_list(r@.my_git_repos, rules@.my_git_repos),
        is_normalized_list(r@.official_git_repos, rules@.official_git_repos),
{
    OriginRules {
        my_git_owners: normalize_rule_list(&rules.my_git_owners),
        my_git_repos: normalize_rule_list(&rules.my_git_repos),
        official_git_repos: normalize_rule_list(&rules.official_git_repos),
    }
}

} // verus!
