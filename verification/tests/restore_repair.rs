use skilldo::cli_rules::{
    author_found, author_from_gh, author_from_git, check_updatable, is_local_source, resolve_skill, updatable_skills,
    SkillLookupError,
};
use skilldo::explore::{parse_json, source_cache_key};
use skilldo::settings::tool_dir_override_key;
use skilldo::webdav::{collection_created, full_url, profile_remote_path, server_base, WebDavError};
use skilldo::app_config::{AppConfig, OriginRules, WebDavConfig, CONFIG_VERSION};
use skilldo::backup::{
    default_target_scope, existing_skill_id, snapshot_of, validate_full_backup, verify_snapshot,
    BackupError, DatabaseSnapshot, FullBackup, InstallOutcome, RestoreAction, RestoreReport,
    SkillBackupEntry, SkillTargetBackupDetails, SkillTargetBackupEntry, BACKUP_VERSION,
};
use skilldo::records::{SkillOriginRecord, SkillRecord};
use skilldo::repair::{
    explicit_repair_request, explicit_source_valid, frontmatter_name, lock_candidate, lock_entries, manifest_fields,
    normalize_subpath, plugin_candidate, plugin_skills_dir, remote_owner_repo,
    repair_skill_source, repair_skill_sources, DetectedGitSource, RepairError, RepairInput,
};
use skilldo::settings::{
    expand_home_path, expand_home_path_with, has_tool_dir_override, resolve_tool_global_dir,
    save_tool_dir_overrides, PathError, Settings, ToolDirError,
};
use skilldo::app_config::{add_scan_dir, remove_scan_dir, CustomScanDirEntry, ToolDirOverride};

fn record(id: &str, name: &str, source_type: &str, source_ref: Option<&str>) -> SkillRecord {
    SkillRecord {
        id: id.to_string(),
        name: name.to_string(),
        description: None,
        source_type: source_type.to_string(),
        source_ref: source_ref.map(|s| s.to_string()),
        source_subpath: None,
        source_revision: None,
        central_path: format!("/data/central/{name}"),
        content_hash: None,
        created_at: 1,
        updated_at: 2,
        last_sync_at: None,
        last_seen_at: 3,
        status: "ok".to_string(),
    }
}

fn no_input() -> RepairInput {
    RepairInput {
        current_origin: None,
        lock: None,
        plugin: None,
        path_detected: None,
        path_is_symlink: false,
        path_exists: true,
    }
}

fn detected(url: &str, subpath: Option<&str>) -> DetectedGitSource {
    DetectedGitSource {
        repo_root: "/work/skills".to_string(),
        remote_url: url.to_string(),
        branch: Some("main".to_string()),
        subpath: subpath.map(|s| s.to_string()),
        revision: Some("0123abcd".to_string()),
    }
}

fn config_with_secrets() -> AppConfig {
    AppConfig {
        config_version: CONFIG_VERSION,
        github_token: "github-secret".to_string(),
        webdav: Some(WebDavConfig {
            url: "https://dav.example.test".to_string(),
            user: "user".to_string(),
            password: "webdav-secret".to_string(),
            remote_dir: "skilldo".to_string(),
        }),
        ..AppConfig::default()
    }
}

fn backup(config: AppConfig, backup_version: u32) -> FullBackup {
    FullBackup {
        backup_version,
        config,
        skills: Vec::new(),
        database: None,
        exported_at: "2024-01-01T00:00:00Z".to_string(),
    }
}

#[test]
fn expand_home_path_basic() {
    let home = dirs::home_dir().expect("home");
    assert_eq!(expand_home_path("~").unwrap(), home.to_string_lossy());
    assert_eq!(
        expand_home_path("~/abc").unwrap(),
        home.join("abc").to_string_lossy()
    );
}

#[test]
fn expand_home_path_empty_is_error() {
    let err = expand_home_path("  ").unwrap_err().message();
    assert!(err.contains("storage path is empty"));
}

#[test]
fn expand_home_path_with_given_home() {
    let home = Some("/home/u".to_string());
    assert_eq!(expand_home_path_with(" ~ ", home.clone()).unwrap(), "/home/u");
    assert_eq!(expand_home_path_with("~/skills", home.clone()).unwrap(), "/home/u/skills");
    assert_eq!(expand_home_path_with("/opt/x", None).unwrap(), "/opt/x");
    assert_eq!(expand_home_path_with("~/x", None), Err(PathError::NoHome));
    assert_eq!(expand_home_path_with("", home), Err(PathError::Empty));
    assert_eq!(PathError::NoHome.message(), "failed to resolve home directory");
}

#[test]
fn exported_config_redacts_credentials() {
    let exported = config_with_secrets().sanitized_for_export();
    let text = format!("{exported:?}");
    assert!(!text.contains("github-secret"));
    assert!(!text.contains("webdav-secret"));
    assert!(exported.github_token.is_empty());
    assert_eq!(exported.webdav.unwrap().password, "");
}

#[test]
fn parses_legacy_string_targets() {
    let target = SkillTargetBackupEntry::Legacy("codex".to_string());
    assert_eq!(
        target.parts(),
        ("codex".to_string(), "global".to_string(), None)
    );
}

#[test]
fn detailed_target_parts_keep_scope_and_project() {
    let target = SkillTargetBackupEntry::Detailed(SkillTargetBackupDetails {
        tool: "cursor".to_string(),
        scope: "project".to_string(),
        project_path: Some("/work/app".to_string()),
    });
    assert_eq!(
        target.parts(),
        ("cursor".to_string(), "project".to_string(), Some("/work/app".to_string()))
    );
    assert_eq!(default_target_scope(), "global");
}

#[test]
fn rejects_backup_from_newer_config_version() {
    let config = AppConfig { config_version: CONFIG_VERSION + 1, ..AppConfig::default() };
    assert!(validate_full_backup(&backup(config, BACKUP_VERSION)).is_err());
}

#[test]
fn rejects_backup_from_newer_backup_format() {
    let config = AppConfig { config_version: CONFIG_VERSION, ..AppConfig::default() };
    let err = validate_full_backup(&backup(config.clone(), BACKUP_VERSION + 1)).unwrap_err();
    assert!(matches!(err, BackupError::NewerBackup { found: 3 }));
    assert_eq!(err.message(), "备份文件版本 v3 高于当前支持版本 v2");
    assert!(validate_full_backup(&backup(config, BACKUP_VERSION)).is_ok());
}

#[test]
fn v2_backup_restores_exact_database_settings() {
    let raw = b"github_token=secret-token\ncustom_future_setting=preserved\n".to_vec();
    let snapshot = snapshot_of(&raw);
    assert_eq!(snapshot.encoding, "base64");
    assert_eq!(snapshot.sha256.len(), 64);
    assert_ne!(snapshot.bytes.as_bytes(), raw.as_slice());
    let restored = verify_snapshot(&snapshot).unwrap();
    assert_eq!(restored, raw);
    let text = String::from_utf8(restored).unwrap();
    assert!(text.contains("secret-token"));
    assert!(text.contains("preserved"));
    let report = RestoreReport::new(BACKUP_VERSION);
    assert_eq!(report.backup_version, 2);
    assert!(!report.database_restored);
}

#[test]
fn snapshot_of_known_bytes_is_exact() {
    let snapshot = snapshot_of(b"abc");
    assert_eq!(snapshot.bytes, "YWJj");
    assert_eq!(
        snapshot.sha256,
        "ba7816bf8f01cfea414140de5dae2223b00361a396177a9cb410ff61f20015ad"
    );
}

#[test]
fn snapshot_errors_are_reported() {
    let good = snapshot_of(b"database image");
    let wrong_encoding = DatabaseSnapshot { encoding: "hex".to_string(), ..good.clone() };
    assert!(matches!(
        verify_snapshot(&wrong_encoding),
        Err(BackupError::UnsupportedEncoding { encoding }) if encoding == "hex"
    ));
    let bad_text = DatabaseSnapshot { bytes: "***".to_string(), ..good.clone() };
    assert!(matches!(verify_snapshot(&bad_text), Err(BackupError::SnapshotDecode)));
    let bad_sum = DatabaseSnapshot { sha256: "00".repeat(32), ..good };
    let err = verify_snapshot(&bad_sum).unwrap_err();
    assert!(matches!(err, BackupError::ChecksumMismatch));
    assert_eq!(err.message(), "数据库快照 SHA256 校验失败");
}

#[test]
fn restore_report_summary_and_planning() {
    let mut report = RestoreReport::new(2);
    let entry = |name: &str, t: &str, r: Option<&str>| SkillBackupEntry {
        id: name.to_string(),
        name: name.to_string(),
        source_type: t.to_string(),
        source_ref: r.map(|s| s.to_string()),
        targets: Vec::new(),
    };
    let kept = report.plan_entry(&entry("kept", "git", Some("u")), Some("id-1".to_string()));
    assert!(matches!(kept, RestoreAction::UseExisting { skill_id } if skill_id == "id-1"));
    let git = report.plan_entry(&entry("g", "git", Some("https://x/g.git")), None);
    assert!(matches!(git, RestoreAction::InstallGit { url } if url == "https://x/g.git"));
    let pkg = report.plan_entry(&entry("p", "package", Some("npm:p")), None);
    assert!(matches!(pkg, RestoreAction::InstallPackage { source_ref } if source_ref == "npm:p"));
    let no_url = report.plan_entry(&entry("n", "git", None), None);
    assert!(matches!(no_url, RestoreAction::Nothing));
    let local = report.plan_entry(&entry("l", "local", None), None);
    assert!(matches!(local, RestoreAction::Nothing));
    assert_eq!(
        report.skipped,
        vec![
            ("kept".to_string(), "已存在，仅恢复同步目标".to_string()),
            ("l".to_string(), "本地技能无法远程同步".to_string()),
        ]
    );
    assert_eq!(report.failed, vec![("n".to_string(), "缺少 git 源地址".to_string())]);

    let id = report.record_install("g", InstallOutcome::Installed { skill_id: "new-g".to_string() });
    assert_eq!(id, Some("new-g".to_string()));
    let none = report.record_install("p", InstallOutcome::BadPackageRef { error: "bad".to_string() });
    assert_eq!(none, None);
    report.record_target_failure("g", "cursor", "denied");
    assert_eq!(report.installed, vec!["g".to_string()]);
    assert_eq!(report.failed[1], ("p".to_string(), "解析包源失败: bad".to_string()));
    assert_eq!(
        report.failed[2],
        ("g → cursor".to_string(), "恢复同步目标失败: denied".to_string())
    );
    assert_eq!(report.summary(), "installed 1, skipped 2, failed 3");
}

#[test]
fn existing_skill_id_takes_the_last_match() {
    let installed = vec![
        ("demo".to_string(), "old".to_string()),
        ("other".to_string(), "x".to_string()),
        ("demo".to_string(), "new".to_string()),
    ];
    assert_eq!(existing_skill_id(&installed, "demo"), Some("new".to_string()));
    assert_eq!(existing_skill_id(&installed, "missing"), None);
}

#[test]
fn settings_read_back_what_was_written() {
    let mut store = Settings::new();
    assert_eq!(store.get("k"), None);
    store.set("k", "v1");
    store.set("k", "v2");
    store.set("j", "w");
    assert_eq!(store.get("k"), Some("v2".to_string()));
    store.delete("k");
    assert_eq!(store.get("k"), None);
    assert_eq!(store.get("j"), Some("w".to_string()));
}

#[test]
fn saved_tool_dir_overrides_read_back() {
    let mut store = Settings::new();
    store.set("tool_global_dir_override_codex", "/old");
    let entry = |key: &str, dir: &str, has: bool| ToolDirOverride {
        tool_key: key.to_string(),
        label: key.to_string(),
        default_dir: "/default".to_string(),
        current_dir: dir.to_string(),
        has_override: has,
    };
    save_tool_dir_overrides(
        &mut store,
        &[entry("cursor", "~/cursor-skills", true), entry("codex", "/default", false)],
    );
    assert!(has_tool_dir_override("cursor", &store));
    assert!(!has_tool_dir_override("codex", &store));
    let home = Some("/home/u".to_string());
    assert_eq!(
        resolve_tool_global_dir("cursor", &store, Some("/d".to_string()), home.clone()).unwrap(),
        "/home/u/cursor-skills"
    );
    assert_eq!(
        resolve_tool_global_dir("codex", &store, Some("/d".to_string()), home.clone()).unwrap(),
        "/d"
    );
    assert!(matches!(
        resolve_tool_global_dir("nope", &store, None, home),
        Err(ToolDirError::UnknownTool { key }) if key == "nope"
    ));
}

#[test]
fn reads_standard_skill_lock_provenance() {
    let raw = r#"{"version":3,"skills":{"demo":{"sourceType":"github","sourceUrl":"https://github.com/example/repo.git","skillPath":"skills/demo/SKILL.md"},"local":{"sourceType":"local","sourceUrl":"","skillPath":"skills/local/SKILL.md"}}}"#;
    let entries = lock_entries(&parse_json(raw).unwrap()).unwrap();
    let candidates: std::collections::HashMap<String, _> = entries
        .into_iter()
        .filter_map(|e| {
            let dir = std::path::Path::new(&e.skill_path).parent().map(|d| d.to_string_lossy().to_string());
            lock_candidate(&e.source_type, &e.source_url, dir).map(|c| (e.name, c))
        })
        .collect();
    let demo = candidates.get("demo").unwrap();
    assert_eq!(demo.detected.remote_url, "https://github.com/example/repo.git");
    assert_eq!(demo.detected.subpath.as_deref(), Some("skills/demo"));
    assert!(!candidates.contains_key("local"));
}

#[test]
fn lock_and_manifest_documents_are_read_strictly() {
    let doc = |raw: &str| parse_json(raw).unwrap();
    assert_eq!(lock_entries(&doc(r#"{"version":3}"#)).unwrap().len(), 0);
    assert!(lock_entries(&doc(r#"{"skills":{"a":{"sourceType":"github","sourceUrl":"u"}}}"#)).is_none());
    assert!(lock_entries(&doc(r#"{"skills":[]}"#)).is_none());
    assert!(lock_entries(&doc(r#"[]"#)).is_none());
    let (repo, skills) = manifest_fields(&doc(r#"{"repository":"https://github.com/o/p","skills":"./skills/"}"#)).unwrap();
    assert_eq!(repo.as_deref(), Some("https://github.com/o/p"));
    assert_eq!(skills.as_deref(), Some("./skills/"));
    assert_eq!(manifest_fields(&doc(r#"{"repository":null}"#)).unwrap(), (None, None));
    assert!(manifest_fields(&doc(r#"{"repository":3}"#)).is_none());
}

#[test]
fn plugin_and_path_helpers() {
    assert_eq!(plugin_skills_dir("./skills/"), "skills");
    let c = plugin_candidate("https://github.com/o/plugin", "skills\\demo");
    assert_eq!(c.detected.subpath.as_deref(), Some("skills/demo"));
    assert_eq!(normalize_subpath("."), None);
    assert_eq!(normalize_subpath("a\\b"), Some("a/b".to_string()));
    assert_eq!(
        remote_owner_repo("git@github.com:Owner/Repo.git"),
        (Some("Owner".to_string()), Some("Repo".to_string()))
    );
    assert_eq!(
        frontmatter_name("---\nname: Demo Skill\n---\nbody"),
        Some("Demo Skill".to_string())
    );
    assert_eq!(frontmatter_name("no header"), None);
}

#[test]
fn repair_promotes_local_record_without_changing_identity() {
    let skills = vec![record("same-id", "demo", "local", Some("/work/skills/skills/demo"))];
    let mut input = no_input();
    input.path_detected = Some(detected("https://github.com/example/skills.git", Some("skills/demo")));
    let inputs = vec![input];
    let rules = OriginRules::default();

    let (dry_run, updates) = repair_skill_sources(&skills, &inputs, &rules, false, 10);
    assert_eq!(dry_run.repairable, 1);
    assert!(dry_run.dry_run);
    assert!(updates.is_empty());
    assert_eq!(skills[0].source_type, "local");

    let (applied, updates) = repair_skill_sources(&skills, &inputs, &rules, true, 10);
    assert_eq!(applied.applied, 1);
    let repaired = &updates[0].0;
    assert_eq!(repaired.id, "same-id");
    assert_eq!(repaired.source_type, "git");
    assert_eq!(repaired.source_subpath.as_deref(), Some("skills/demo"));
    assert_eq!(
        repaired.source_ref.as_deref(),
        Some("https://github.com/example/skills.git")
    );
}

#[test]
fn repair_reclassifies_existing_git_record_when_owner_rules_change() {
    let mut skill = record(
        "cli-anything",
        "cli-anything",
        "git",
        Some("https://github.com/yancongya/cli-anything.git"),
    );
    skill.source_revision = Some("kept-revision".to_string());
    let mut input = no_input();
    input.current_origin = Some(SkillOriginRecord {
        skill_id: "cli-anything".to_string(),
        origin_kind: "git".to_string(),
        origin_role: "mine".to_string(),
        provider: Some("git".to_string()),
        remote_url: Some("https://github.com/yancongya/cli-anything.git".to_string()),
        owner: None,
        repo: None,
        branch: Some("main".to_string()),
        subpath: None,
        update_strategy: "git_pull".to_string(),
        publish_strategy: "none".to_string(),
        manual_override: false,
        reason: None,
        updated_at: 1,
    });
    let rules = OriginRules {
        my_git_owners: vec!["yancongya".to_string()],
        ..OriginRules::default()
    };
    let (report, updates) = repair_skill_sources(&vec![skill], &vec![input], &rules, true, 5);
    assert_eq!(report.repairable, 1);
    let (repaired, origin) = &updates[0];
    assert_eq!(repaired.source_revision.as_deref(), Some("kept-revision"));
    assert_eq!(origin.origin_role, "mine");
    assert_eq!(origin.owner.as_deref(), Some("yancongya"));
    assert_eq!(origin.repo.as_deref(), Some("cli-anything"));
    assert_eq!(origin.publish_strategy, "git_push");
    assert_eq!(origin.branch.as_deref(), Some("main"));
}

#[test]
fn repair_reports_unresolvable_skill() {
    let skills = vec![record("x", "lost", "local", None), record("p", "pkg", "package", Some("npm:p"))];
    let (report, updates) =
        repair_skill_sources(&skills, &vec![no_input(), no_input()], &OriginRules::default(), true, 1);
    assert_eq!(report.scanned, 2);
    assert_eq!(report.unresolved, 1);
    assert_eq!(report.already_portable, 1);
    assert_eq!(report.items.len(), 1);
    assert_eq!(report.items[0].status, "unresolved");
    assert_eq!(report.items[0].reason, "本地 Skill 没有 sourceRef");
    assert!(updates.is_empty());
}

#[test]
fn explicit_repair_validates_remote_skill_identity() {
    let skills = vec![record("demo-id", "demo", "local", Some("/work/demo"))];
    let (index, d, matches) = explicit_repair_request(
        &skills,
        "demo",
        " https://github.com/example/skills.git ",
        Some("skills/demo"),
    )
    .unwrap();
    assert_eq!(index, 0);
    assert!(!matches);
    assert_eq!(d.remote_url, "https://github.com/example/skills.git");
    assert!(explicit_source_valid(true, Some("demo".to_string()), None, "demo"));
    let (report, update) =
        repair_skill_source(&skills[0], &d, &None, &OriginRules::default(), true, 7);
    assert_eq!(report.applied, 1);
    assert_eq!(update.unwrap().0.source_type, "git");

    assert!(!explicit_source_valid(false, Some("demo".to_string()), None, "demo"));
    let error = RepairError::SourceMismatch { name: "demo".to_string() };
    assert!(error.message().contains("SOURCE_MISMATCH"));
    assert!(matches!(
        explicit_repair_request(&skills, "nobody", "u", None),
        Err(RepairError::SkillNotFound { key }) if key == "nobody"
    ));
    assert!(matches!(
        explicit_repair_request(&skills, "DEMO", "  ", None),
        Err(RepairError::EmptyRemote)
    ));
}

#[test]
fn stored_configuration_is_bounded_and_normalized() {
    let cfg = AppConfig {
        git_cache_cleanup_days: 99_999,
        git_cache_ttl_secs: -5,
        github_token: "  tok \n".to_string(),
        origin_rules: OriginRules {
            my_git_owners: vec!["https://www.GitHub.com/Me.git".to_string(), "me".to_string(), " ".to_string()],
            ..OriginRules::default()
        },
        ..AppConfig::default()
    };
    let stored = cfg.prepared_for_save();
    assert_eq!(stored.git_cache_cleanup_days, 3650);
    assert_eq!(stored.git_cache_ttl_secs, 0);
    assert_eq!(stored.github_token, "tok");
    assert_eq!(stored.origin_rules.my_git_owners, vec!["github.com/me".to_string(), "me".to_string()]);
}

#[test]
fn command_line_skill_lookup() {
    let skills = vec![
        record("id-1", "Demo", "git", None),
        record("id-2", "demo", "git", None),
        record("id-3", "Other", "local", None),
    ];
    assert_eq!(resolve_skill(&skills, "id-2").unwrap(), 1);
    assert_eq!(resolve_skill(&skills, "OTHER").unwrap(), 2);
    assert!(matches!(resolve_skill(&skills, "missing"), Err(SkillLookupError::NotFound)));
    assert!(matches!(
        resolve_skill(&skills, "DEMO"),
        Err(SkillLookupError::Ambiguous { matches }) if matches == vec![0, 1]
    ));
    assert!(is_local_source("./skills/demo"));
    assert!(!is_local_source("https://github.com/o/r"));
    assert!(!is_local_source("git@github.com:o/r"));
    assert!(!is_local_source("/srv/mirror/r.git"));
}

#[test]
fn webdav_and_settings_keys() {
    assert_eq!(profile_remote_path(" /backups/skilldo/ "), "backups/skilldo/skilldo-profile.json");
    assert_eq!(profile_remote_path(""), "skilldo-profile.json");
    assert_eq!(server_base("https://dav.example.test//").unwrap(), "https://dav.example.test");
    assert_eq!(server_base("///"), Err(WebDavError::MissingUrl));
    assert_eq!(full_url("https://dav.example.test", "/a/b.json"), "https://dav.example.test/a/b.json");
    assert!(collection_created(201));
    assert!(collection_created(405));
    assert!(!collection_created(409));
    assert_eq!(source_cache_key("custom-1"), "explore_source_cache_custom-1");
    assert_eq!(tool_dir_override_key("codex"), "tool_global_dir_override_codex");
}

#[test]
fn scan_dirs_are_listed_once_per_path() {
    let entry = |name: &str, path: &str| CustomScanDirEntry { name: name.to_string(), path: path.to_string() };
    let mut dirs = vec![entry("a", "/x/a")];
    add_scan_dir(&mut dirs, "again", "/x/a");
    assert_eq!(dirs.len(), 1);
    assert_eq!(dirs[0].name, "a");
    add_scan_dir(&mut dirs, "b", "/x/b");
    assert_eq!(dirs.len(), 2);
    assert_eq!(dirs[1].name, "b");
    dirs.push(entry("a2", "/x/a"));
    remove_scan_dir(&mut dirs, "/x/a");
    assert_eq!(dirs.len(), 1);
    assert_eq!(dirs[0].path, "/x/b");
    remove_scan_dir(&mut dirs, "/missing");
    assert_eq!(dirs.len(), 1);
}

#[test]
fn only_git_skills_are_updated_from_source() {
    let skills = vec![
        record("a", "alpha", "git", Some("https://github.com/o/a")),
        record("b", "beta", "local", None),
        record("c", "gamma", "git", Some("https://github.com/o/c")),
        record("d", "delta", "package", None),
    ];
    assert_eq!(updatable_skills(&skills), vec![0, 2]);
    assert!(check_updatable(&skills[0]).is_ok());
    assert_eq!(
        check_updatable(&skills[1]).unwrap_err(),
        "skill 'beta' is not a git skill (source_type=local), cannot update from source"
    );
}

#[test]
fn author_is_detected_from_gh_then_git() {
    let s = |v: &str| Some(v.to_string());
    let a = author_from_gh(s("octo"), None, None, s("https://github.com/octo")).unwrap();
    assert_eq!(a.name, "octo");
    assert_eq!(a.email, "");
    assert_eq!(a.github_url, "https://github.com/octo");
    assert_eq!(a.source, "gh");
    assert!(a.gh_authenticated);
    let b = author_from_gh(s("octo"), s("Octo Cat"), s("o@x.io"), None).unwrap();
    assert_eq!(b.name, "Octo Cat");
    assert_eq!(b.email, "o@x.io");
    assert!(author_from_gh(s(""), s("n"), None, None).is_none());
    assert!(author_from_gh(None, s("n"), None, None).is_none());
    let g = author_from_git(s("Dev"), None);
    assert_eq!(g.name, "Dev");
    assert_eq!(g.source, "git");
    assert!(!g.gh_authenticated);
    assert!(author_found(&g));
    assert!(!author_found(&author_from_git(None, None)));
}
