use skilldo::app_config::{AppConfig, OriginRules, WebDavConfig};
use skilldo::explore::{merge_saved_sources, ExploreSourceConfig};
use skilldo::merge::{merge_documents, merge_documents_at};
use skilldo::profile::{
    portable_config, stable_skill_key, ConflictStrategy, PortableProfileConfig, ProfileDocument,
    ProfileError, ProfileSkill, PROFILE_VERSION,
};
use skilldo::records::SkillRecord;

fn config() -> PortableProfileConfig {
    PortableProfileConfig {
        language: Some("zh".to_string()),
        git_cache_cleanup_days: 30,
        git_cache_ttl_secs: 60,
        origin_rules: OriginRules::default(),
        explore_sources: Vec::new(),
    }
}

fn skill(key: &str, name: &str, by: &str) -> ProfileSkill {
    ProfileSkill {
        key: key.to_string(),
        name: name.to_string(),
        source_type: "git".to_string(),
        source_ref: format!("https://github.com/example/{name}"),
        source_subpath: None,
        update_policy: "manual".to_string(),
        pinned_revision: None,
        targets: vec!["codex".to_string()],
        tags: Vec::new(),
        origin_override: None,
        deleted_at: None,
        updated_at: 1,
        updated_by: by.to_string(),
    }
}

fn document(skills: Vec<ProfileSkill>) -> ProfileDocument {
    ProfileDocument {
        profile_version: PROFILE_VERSION,
        profile_id: "profile".to_string(),
        generation: 1,
        updated_at: 1,
        updated_by: "a".to_string(),
        config: config(),
        config_updated_at: 1,
        config_updated_by: "a".to_string(),
        skills,
    }
}

#[test]
fn merges_independent_device_additions() {
    let base = document(Vec::new());
    let local = document(vec![skill("a", "a", "device-a")]);
    let remote = document(vec![skill("b", "b", "device-b")]);
    let (merged, conflicts) =
        merge_documents(Some(&base), &local, Some(&remote), "a", ConflictStrategy::Abort);
    assert!(conflicts.is_empty());
    assert_eq!(merged.skills.len(), 2);
}

#[test]
fn merges_concurrent_targets_and_tags_as_union() {
    let original = skill("a", "demo", "base");
    let base = document(vec![original.clone()]);
    let mut local_skill = original.clone();
    local_skill.targets.push("cursor".to_string());
    let mut remote_skill = original;
    remote_skill.tags.push("shared".to_string());
    let local = document(vec![local_skill]);
    let remote = document(vec![remote_skill]);
    let (merged, conflicts) =
        merge_documents(Some(&base), &local, Some(&remote), "a", ConflictStrategy::Abort);
    assert!(conflicts.is_empty());
    assert_eq!(merged.skills[0].targets, vec!["codex", "cursor"]);
    assert_eq!(merged.skills[0].tags, vec!["shared"]);
}

#[test]
fn first_connection_merges_compatible_same_skill() {
    let mut local_skill = skill("a", "demo", "local");
    local_skill.targets.push("cursor".to_string());
    let mut remote_skill = skill("a", "demo", "remote");
    remote_skill.tags.push("Shared".to_string());
    let local = document(vec![local_skill]);
    let remote = document(vec![remote_skill]);
    let (merged, conflicts) =
        merge_documents(None, &local, Some(&remote), "local", ConflictStrategy::Abort);
    assert!(conflicts.is_empty());
    assert_eq!(merged.skills[0].targets, vec!["codex", "cursor"]);
    assert_eq!(merged.skills[0].tags, vec!["Shared"]);
}

#[test]
fn conflicting_revisions_are_not_merged() {
    let mut original = skill("a", "demo", "base");
    original.update_policy = "pinned".to_string();
    original.pinned_revision = Some("base".to_string());
    let base = document(vec![original.clone()]);
    let mut local_skill = original.clone();
    local_skill.pinned_revision = Some("local".to_string());
    let mut remote_skill = original;
    remote_skill.pinned_revision = Some("remote".to_string());
    let (merged, conflicts) = merge_documents(
        Some(&base),
        &document(vec![local_skill]),
        Some(&document(vec![remote_skill])),
        "local",
        ConflictStrategy::Abort,
    );
    assert_eq!(conflicts.len(), 1);
    assert_eq!(merged.skills[0].pinned_revision.as_deref(), Some("remote"));
}

#[test]
fn three_devices_accumulate_independent_skills() {
    let empty = document(Vec::new());
    let device_a = document(vec![skill("a", "a", "a")]);
    let device_b = document(vec![skill("b", "b", "b")]);
    let (ab, conflicts) =
        merge_documents(Some(&empty), &device_a, Some(&device_b), "a", ConflictStrategy::Abort);
    assert!(conflicts.is_empty());
    let device_c = document(vec![skill("c", "c", "c")]);
    let (abc, conflicts) =
        merge_documents(Some(&empty), &device_c, Some(&ab), "c", ConflictStrategy::Abort);
    assert!(conflicts.is_empty());
    assert_eq!(abc.skills.len(), 3);
}

fn record(source_ref: &str) -> SkillRecord {
    SkillRecord {
        id: "id".to_string(),
        name: "Demo".to_string(),
        description: None,
        source_type: "git".to_string(),
        source_ref: Some(source_ref.to_string()),
        source_subpath: None,
        source_revision: None,
        central_path: "/tmp/demo".to_string(),
        content_hash: None,
        created_at: 0,
        updated_at: 0,
        last_sync_at: None,
        last_seen_at: 0,
        status: "ok".to_string(),
    }
}

#[test]
fn stable_key_ignores_git_url_transport() {
    assert_eq!(
        stable_skill_key(&record("https://github.com/example/demo.git")),
        stable_skill_key(&record("git@github.com:example/demo.git"))
    );
}

#[test]
fn portable_config_excludes_device_paths_and_credentials() {
    let app = AppConfig {
        language: Some("zh".to_string()),
        storage_path: Some("/Users/device-a/private-skills".to_string()),
        webdav: Some(WebDavConfig {
            url: "https://dav.example.test".to_string(),
            user: "alice".to_string(),
            password: "secret".to_string(),
            remote_dir: "private".to_string(),
        }),
        ..AppConfig::default()
    };
    let text = format!("{:?}", portable_config(&app));
    assert!(!text.contains("private-skills"));
    assert!(!text.contains("dav.example.test"));
    assert!(!text.contains("alice"));
    assert!(!text.contains("secret"));
}

#[test]
fn tombstone_propagates_when_other_device_is_unchanged() {
    let original = skill("a", "demo", "base");
    let base = document(vec![original.clone()]);
    let local = document(vec![ProfileSkill {
        deleted_at: Some(2),
        updated_at: 2,
        updated_by: "device-a".to_string(),
        ..original.clone()
    }]);
    let remote = document(vec![original]);
    let (merged, conflicts) =
        merge_documents(Some(&base), &local, Some(&remote), "device-a", ConflictStrategy::Abort);
    assert!(conflicts.is_empty());
    assert_eq!(merged.skills[0].deleted_at, Some(2));
}

#[test]
fn conflict_strategy_selects_requested_side() {
    let mut original = skill("a", "demo", "base");
    original.update_policy = "pinned".to_string();
    original.pinned_revision = Some("base".to_string());
    let base = document(vec![original.clone()]);
    let mut local_skill = original.clone();
    local_skill.pinned_revision = Some("local".to_string());
    let mut remote_skill = original;
    remote_skill.pinned_revision = Some("remote".to_string());
    let local = document(vec![local_skill]);
    let remote = document(vec![remote_skill]);
    let (local_result, local_conflicts) =
        merge_documents(Some(&base), &local, Some(&remote), "a", ConflictStrategy::Local);
    let (remote_result, remote_conflicts) =
        merge_documents(Some(&base), &local, Some(&remote), "a", ConflictStrategy::Remote);
    assert_eq!(local_conflicts.len(), 1);
    assert_eq!(remote_conflicts.len(), 1);
    assert_eq!(local_result.skills[0].pinned_revision.as_deref(), Some("local"));
    assert_eq!(remote_result.skills[0].pinned_revision.as_deref(), Some("remote"));
}

#[test]
fn merge_saved_sources_keeps_builtin_and_custom() {
    let saved = vec![
        ExploreSourceConfig {
            id: "official-featured".to_string(),
            name: String::new(),
            kind: String::new(),
            endpoint: String::new(),
            enabled: false,
            builtin: false,
        },
        ExploreSourceConfig {
            id: "custom-1".to_string(),
            name: "My".to_string(),
            kind: "json_index".to_string(),
            endpoint: "https://x/y.json".to_string(),
            enabled: true,
            builtin: false,
        },
    ];
    let merged = merge_saved_sources(saved);
    let official = merged.iter().find(|s| s.id == "official-featured").unwrap();
    assert!(official.builtin);
    assert_eq!(official.name, "Skills Hub Official");
    assert_eq!(official.kind, "featured_json");
    assert!(!official.enabled);
    assert!(merged.iter().any(|s| s.id == "custom-1"));
}

// Further scenarios of the merge.

#[test]
fn merge_conflict_paths_and_reasons_are_exact() {
    let mut original = skill("a", "demo", "base");
    original.pinned_revision = Some("base".to_string());
    let base = document(vec![original.clone()]);
    let mut local_skill = original.clone();
    local_skill.pinned_revision = Some("local".to_string());
    let remote = document(vec![]);
    let (merged, conflicts) = merge_documents_at(
        Some(&base),
        &document(vec![local_skill]),
        Some(&remote),
        "dev",
        ConflictStrategy::Remote,
        99,
    );
    assert_eq!(conflicts.len(), 1);
    assert_eq!(conflicts[0].path, "skills.a");
    assert_eq!(conflicts[0].reason, "一台设备删除了 Skill，另一台设备仍保留或修改了它");
    // The remote side has no entry, so the kept side falls back to the local one.
    assert_eq!(merged.skills.len(), 1);
    assert_eq!(merged.skills[0].pinned_revision.as_deref(), Some("local"));
    assert_eq!(merged.updated_at, 99);
    assert_eq!(merged.updated_by, "dev");
}

#[test]
fn merge_config_conflict_is_reported_and_settled_by_strategy() {
    let base = document(vec![]);
    let mut local = document(vec![]);
    local.config.git_cache_cleanup_days = 1;
    local.generation = 7;
    let mut remote = document(vec![]);
    remote.config.git_cache_cleanup_days = 2;
    remote.generation = 5;
    let (merged, conflicts) =
        merge_documents_at(Some(&base), &local, Some(&remote), "dev", ConflictStrategy::Local, 5);
    assert_eq!(conflicts.len(), 1);
    assert_eq!(conflicts[0].path, "config");
    assert_eq!(conflicts[0].reason, "本机和远端同时修改了共享配置");
    assert_eq!(merged.config.git_cache_cleanup_days, 1);
    assert_eq!(merged.generation, 7);
    let (merged, conflicts) =
        merge_documents_at(Some(&base), &local, Some(&remote), "dev", ConflictStrategy::Remote, 5);
    assert_eq!(conflicts.len(), 1);
    assert_eq!(merged.config.git_cache_cleanup_days, 2);
}

#[test]
fn untouched_local_config_takes_remote_change_whatever_the_strategy() {
    let base = document(vec![]);
    let local = document(vec![]);
    let mut remote = document(vec![]);
    remote.config.git_cache_cleanup_days = 9;
    for strategy in [ConflictStrategy::Local, ConflictStrategy::Remote, ConflictStrategy::Abort] {
        let (merged, conflicts) = merge_documents_at(Some(&base), &local, Some(&remote), "dev", strategy, 5);
        assert!(conflicts.is_empty());
        assert_eq!(merged.config.git_cache_cleanup_days, 9);
    }
}

#[test]
fn merge_without_base_or_remote_keeps_local() {
    let local = document(vec![skill("z", "z", "me")]);
    let (merged, conflicts) = merge_documents_at(None, &local, None, "dev", ConflictStrategy::Abort, 3);
    assert!(conflicts.is_empty());
    assert_eq!(merged.skills.len(), 1);
    assert_eq!(merged.updated_at, 1);
}

#[test]
fn merged_skills_come_out_sorted_by_key() {
    let base = document(vec![]);
    let local = document(vec![skill("m", "m", "x"), skill("c", "c", "x")]);
    let remote = document(vec![skill("x", "x", "y"), skill("a", "a", "y")]);
    let (merged, _) =
        merge_documents_at(Some(&base), &local, Some(&remote), "dev", ConflictStrategy::Abort, 4);
    let keys: Vec<&str> = merged.skills.iter().map(|s| s.key.as_str()).collect();
    assert_eq!(keys, vec!["a", "c", "m", "x"]);
}

#[test]
fn validate_reports_each_problem() {
    let mut doc = document(vec![skill("a", "a", "x")]);
    assert!(doc.validate().is_ok());
    doc.profile_version = 3;
    match doc.validate() {
        Err(e) => assert_eq!(e.message(), "Profile 由更新版本 (v3) 创建，当前仅支持 v2"),
        Ok(()) => panic!("newer profile accepted"),
    }
    let mut doc = document(vec![skill("a", "a", "x")]);
    doc.profile_id = "  ".to_string();
    assert!(matches!(doc.validate(), Err(ProfileError::MissingProfileId)));
    let doc = document(vec![skill("a", "a", "x"), skill("a", "b", "x")]);
    match doc.validate() {
        Err(e) => assert_eq!(e.message(), "Profile 包含重复 Skill key: a"),
        Ok(()) => panic!("duplicate accepted"),
    }
    let mut bad = skill("a", "demo", "x");
    bad.update_policy = "sometimes".to_string();
    match document(vec![bad]).validate() {
        Err(e) => assert_eq!(e.message(), "Profile Skill demo 使用不支持的更新策略: sometimes"),
        Ok(()) => panic!("bad policy accepted"),
    }
    let mut blank = skill("a", "demo", "x");
    blank.source_ref = String::new();
    assert!(matches!(document(vec![blank]).validate(), Err(ProfileError::SkillMissingFields)));
}

#[test]
fn conflict_strategy_names_round_trip() {
    for s in [ConflictStrategy::Abort, ConflictStrategy::Local, ConflictStrategy::Remote] {
        assert_eq!(ConflictStrategy::parse(s.as_str()).unwrap(), s);
    }
    match ConflictStrategy::parse("both") {
        Err(e) => assert_eq!(e.message(), "冲突策略必须是 abort、local 或 remote"),
        Ok(_) => panic!("unknown strategy accepted"),
    }
}

#[test]
fn stable_key_is_prefixed_and_hex() {
    let key = stable_skill_key(&record("https://github.com/example/demo.git")).unwrap();
    assert!(key.starts_with("v1:git:"));
    assert_eq!(key.len(), "v1:git:".len() + 64);
    let mut local = record("/tmp/x");
    local.source_type = "local".to_string();
    assert_eq!(stable_skill_key(&local), None);
}
