use skilldo::app_config::OriginRules;
use skilldo::device::{
    device_pull, device_status, publishable, publish_begin, publish_finish, publish_group, publish_plan,
    publish_pushed_stage, record_backup, record_final_profile, record_push, record_update_check,
    source_key, DeviceSkill, PushOutcome, UpdateCheck,
};
use skilldo::listing::{
    fallback_cli_origin, filter_keeps, list_line, package_author, skill_author,
};
use skilldo::local_profile::{
    build_local_document, profile_tags, profile_targets, LocalSkillState, LocalTarget,
};
use skilldo::profile::{
    stable_skill_key, ConflictStrategy, PortableProfileConfig, ProfileConflict, ProfileDocument,
    ProfileSkill, ProfileSyncReport, PROFILE_VERSION,
};
use skilldo::cli_rules::remember_recent;
use skilldo::project::{known_project_paths, TargetScope, RECENT_PICKER_LIMIT, RECENT_PROJECTS_LIMIT};
use skilldo::records::{SkillOriginRecord, SkillRecord};
use skilldo::sync::{
    check_import_profile, check_pinned_revision, check_remote_profile, choose_profile_id,
    new_sync_report, note_deletion, note_install, note_target_sync, plan_desired, remote_changed,
    stale_targets, stamp_published, stops_before_apply, usable_base, DesiredStep, InstalledIndex,
    SyncError,
};

fn device_skill(name: &str, source_type: &str, source_ref: Option<&str>, publishable: bool, changed: bool) -> DeviceSkill {
    DeviceSkill {
        id: format!("id-{name}"),
        name: name.to_string(),
        source_type: source_type.to_string(),
        source_ref: source_ref.map(|s| s.to_string()),
        publishable,
        changed,
    }
}

fn sync_report(conflicts: usize, failures: usize) -> ProfileSyncReport {
    let conflict = ProfileConflict { path: "skills.k".to_string(), reason: "r".to_string() };
    let mut report = new_sync_report(
        "profile",
        "device-a",
        true,
        false,
        vec![conflict; conflicts],
        ConflictStrategy::Abort,
        Vec::new(),
    );
    for i in 0..failures {
        note_deletion(&mut report, &format!("f{i}"), Err("e".to_string()));
    }
    report
}

fn record(id: &str, name: &str, source_type: &str, source_ref: Option<&str>) -> SkillRecord {
    SkillRecord {
        id: id.to_string(),
        name: name.to_string(),
        description: None,
        source_type: source_type.to_string(),
        source_ref: source_ref.map(|s| s.to_string()),
        source_subpath: None,
        source_revision: None,
        central_path: format!("/c/{name}"),
        content_hash: None,
        created_at: 1,
        updated_at: 1,
        last_sync_at: None,
        last_seen_at: 1,
        status: "ok".to_string(),
    }
}

fn config() -> PortableProfileConfig {
    PortableProfileConfig {
        language: None,
        git_cache_cleanup_days: 30,
        git_cache_ttl_secs: 60,
        origin_rules: OriginRules::default(),
        explore_sources: Vec::new(),
    }
}

fn profile_skill(key: &str, name: &str, source_type: &str) -> ProfileSkill {
    ProfileSkill {
        key: key.to_string(),
        name: name.to_string(),
        source_type: source_type.to_string(),
        source_ref: format!("https://github.com/o/{name}.git"),
        source_subpath: None,
        update_policy: "latest".to_string(),
        pinned_revision: None,
        targets: Vec::new(),
        tags: Vec::new(),
        origin_override: None,
        deleted_at: None,
        updated_at: 1,
        updated_by: "a".to_string(),
    }
}

fn document(id: &str, generation: u64, skills: Vec<ProfileSkill>) -> ProfileDocument {
    ProfileDocument {
        profile_version: PROFILE_VERSION,
        profile_id: id.to_string(),
        generation,
        updated_at: 1,
        updated_by: "a".to_string(),
        config: config(),
        config_updated_at: 1,
        config_updated_by: "a".to_string(),
        skills,
    }
}

#[test]
fn device_status_counts_skills_and_repositories() {
    let skills = vec![
        device_skill("mine-a", "git", Some("https://github.com/me/repo.git"), true, true),
        device_skill("mine-b", "git", Some("https://github.com/ME/repo/"), true, false),
        device_skill("other", "git", Some("https://github.com/o/x"), false, true),
        device_skill("loc", "local", None, false, false),
    ];
    assert_eq!(source_key(&skills[0]), source_key(&skills[1]));
    assert_eq!(source_key(&skills[0]), "https://github.com/me/repo");
    let report = device_status(sync_report(0, 0), &skills);
    assert_eq!(report.mode, "status");
    assert_eq!(report.state, "ready");
    assert_eq!(report.local_only_skills, vec!["loc".to_string()]);
    assert_eq!(report.pullable_skills, 3);
    assert_eq!(report.local_ahead, 2);
    assert_eq!(report.pushable_repositories, 1);
    assert_eq!(report.dirty_repositories, 2);
    assert_eq!(report.stages.len(), 1);
    assert_eq!(device_status(sync_report(1, 0), &skills).state, "conflict");
}

#[test]
fn device_pull_reports_profile_outcome() {
    let report = device_pull(sync_report(0, 1));
    assert_eq!(report.state, "partial");
    assert_eq!(report.stages[1].status, "completed");
    assert_eq!(report.stages[1].message, "Installed 0, updated 0, conflicts 0");
    let blocked = device_pull(sync_report(2, 0));
    assert_eq!(blocked.state, "conflict");
    assert_eq!(blocked.stages[1].status, "blocked");
}

#[test]
fn publish_pipeline_groups_and_gates_pushes() {
    let (stopped, blocked) = publish_begin(sync_report(1, 0));
    assert!(blocked);
    assert_eq!(stopped.state, "conflict");

    let (mut report, blocked) = publish_begin(sync_report(0, 0));
    assert!(!blocked);
    assert_eq!(report.stages[1].message, "Updated 0 source Skill(s)");
    let skills = vec![
        device_skill("a", "git", Some("https://github.com/me/one"), true, true),
        device_skill("b", "git", Some("https://github.com/me/two"), true, true),
        device_skill("c", "git", Some("https://github.com/me/two"), true, true),
        device_skill("d", "git", Some("https://github.com/me/three"), true, false),
        device_skill("l", "local", None, false, false),
    ];
    let groups = publish_plan(&mut report, &skills);
    assert_eq!(groups.len(), 2);
    assert_eq!(report.pushable_repositories, 4);
    assert_eq!(report.no_changes, vec!["d".to_string()]);
    assert_eq!(report.local_only_skills, vec!["l".to_string()]);

    let one = groups.iter().find(|g| g.len() == 1).unwrap();
    let two = groups.iter().find(|g| g.len() == 2).unwrap();
    assert!(publish_group(&mut report, two, true).is_none());
    assert_eq!(report.failures.last().unwrap().0, "b, c");
    assert!(publish_group(&mut report, one, false).is_none());
    assert_eq!(report.failures.last().unwrap().1, "需要 --yes 才能提交并推送本地修改");
    let chosen = publish_group(&mut report, one, true).unwrap();
    assert_eq!(chosen.name, "a");

    let go = record_update_check(
        &mut report,
        "a",
        UpdateCheck::Checked { latest: Some("x".to_string()), current: Some("x".to_string()) },
    );
    assert!(go);
    let stop = record_update_check(
        &mut report,
        "a",
        UpdateCheck::Checked { latest: Some("y".to_string()), current: Some("x".to_string()) },
    );
    assert!(!stop);
    record_push(&mut report, "a", PushOutcome::Pushed);
    record_push(&mut report, "z", PushOutcome::Failed { error: "denied".to_string() });
    assert_eq!(report.pushed, vec!["a".to_string()]);
    assert_eq!(report.failures.last().unwrap().1, "推送失败: denied");
    publish_pushed_stage(&mut report);
    assert_eq!(report.stages.last().unwrap().status, "partial");
    assert_eq!(report.stages.last().unwrap().message, "Pushed 1 Skill(s)");
    let before = report.failures.len();
    record_final_profile(&mut report, sync_report(0, 1));
    assert_eq!(report.failures.len(), before + 1);
    record_backup(&mut report, Ok("skilldo/backup.json".to_string()));
    assert_eq!(report.backup_remote_path.as_deref(), Some("skilldo/backup.json"));
    record_backup(&mut report, Err("offline".to_string()));
    assert_eq!(report.failures.last().unwrap().0, "webdav-backup");
    publish_finish(&mut report);
    assert_eq!(report.state, "partial");
}

#[test]
fn profile_id_and_checks() {
    assert_eq!(choose_profile_id(None, Some("b".to_string()), Some("s".to_string())), "b");
    assert_eq!(choose_profile_id(Some("r".to_string()), None, None), "r");
    assert!(!choose_profile_id(None, None, None).is_empty());
    let mine = document("p", 3, Vec::new());
    let other = document("q", 1, Vec::new());
    assert!(check_remote_profile(Some(&mine), "p").is_ok());
    assert!(matches!(check_remote_profile(Some(&other), "p"), Err(SyncError::RemoteProfileMismatch)));
    assert!(check_remote_profile(None, "p").is_ok());
    assert!(usable_base(Some(&other), "p").is_none());
    assert!(usable_base(Some(&mine), "p").is_some());
    assert!(matches!(check_import_profile(Some(&mine), &other), Err(SyncError::ImportProfileMismatch)));
    assert_eq!(SyncError::WebDavMissing.message(), "WebDAV 未配置");
    assert!(remote_changed(&mine, None));
    assert!(!remote_changed(&mine, Some(&mine.clone())));
    let report = sync_report(1, 0);
    assert!(stops_before_apply(false, &report, ConflictStrategy::Abort));
    assert!(!stops_before_apply(false, &report, ConflictStrategy::Local));
    assert!(stops_before_apply(true, &sync_report(0, 0), ConflictStrategy::Remote));
    let mut merged = mine.clone();
    stamp_published(&mut merged, Some(7), Some(3), "device-b", 99);
    assert_eq!(merged.generation, 8);
    assert_eq!(merged.updated_by, "device-b");
    assert_eq!(merged.updated_at, 99);
}

#[test]
fn applying_a_profile_plans_each_skill() {
    let installed = record("id-1", "demo", "git", Some("https://github.com/o/demo.git"));
    let key = stable_skill_key(&installed).unwrap();
    let mut index = InstalledIndex::build(&vec![installed.clone(), record("l", "loc", "local", None)]);
    assert!(index.get(&key).is_some());

    let mut wanted = profile_skill(&key, "demo", "git");
    let step = plan_desired(&mut index, &wanted, false).unwrap();
    assert!(matches!(step, DesiredStep::Refresh { update: true, .. }));
    let missing = profile_skill("v1:git:other", "other", "git");
    assert!(matches!(
        plan_desired(&mut index, &missing, false).unwrap(),
        DesiredStep::InstallGit { name, .. } if name == "other"
    ));
    let odd = profile_skill("v1:x:y", "odd", "local");
    assert!(matches!(
        plan_desired(&mut index, &odd, true),
        Err(SyncError::UnsupportedSource { source_type }) if source_type == "local"
    ));
    wanted.deleted_at = Some(5);
    let mut confirmed = InstalledIndex::build(&vec![installed.clone()]);
    assert!(matches!(
        plan_desired(&mut index, &wanted, false).unwrap(),
        DesiredStep::Pending { record } if record.id == "id-1"
    ));
    assert!(index.get(&key).is_none());
    assert!(matches!(plan_desired(&mut index, &wanted, true).unwrap(), DesiredStep::Skip));
    assert!(matches!(
        plan_desired(&mut confirmed, &wanted, true).unwrap(),
        DesiredStep::Delete { record } if record.id == "id-1"
    ));

    let mut report = sync_report(0, 0);
    assert!(note_install(&mut report, "other", Ok("other".to_string())));
    assert!(!note_install(&mut report, "bad", Err("boom".to_string())));
    note_target_sync(&mut report, "other", "cursor", Ok(()));
    let mut pinned = profile_skill(&key, "demo", "git");
    pinned.update_policy = "pinned".to_string();
    pinned.pinned_revision = Some("abc".to_string());
    check_pinned_revision(&mut report, &pinned, "demo", &Some("def".to_string()));
    assert_eq!(report.installed, vec!["other".to_string()]);
    assert_eq!(report.synced_targets, vec!["other → cursor".to_string()]);
    assert_eq!(report.failures[0], ("bad".to_string(), "安装失败: boom".to_string()));
    assert_eq!(
        report.failures[1].1,
        "Profile 固定 revision abc 与当前 revision def 不一致"
    );
    let current = vec![
        LocalTarget { tool: "codex".to_string(), scope: "global".to_string() },
        LocalTarget { tool: "cursor".to_string(), scope: "global".to_string() },
        LocalTarget { tool: "custom:x".to_string(), scope: "global".to_string() },
        LocalTarget { tool: "windsurf".to_string(), scope: "project".to_string() },
    ];
    assert_eq!(stale_targets(&current, &vec!["cursor".to_string()]), vec!["codex".to_string()]);
}

#[test]
fn local_document_carries_portable_skills_and_tombstones() {
    let state = |rec: SkillRecord, tags: &[&str]| LocalSkillState {
        record: rec,
        targets: vec![
            LocalTarget { tool: "cursor".to_string(), scope: "global".to_string() },
            LocalTarget { tool: "codex".to_string(), scope: "global".to_string() },
            LocalTarget { tool: "codex".to_string(), scope: "global".to_string() },
            LocalTarget { tool: "zed".to_string(), scope: "project".to_string() },
        ],
        tags: tags.iter().map(|t| t.to_string()).collect(),
        origin: None,
    };
    let git = record("g", "demo", "git", Some("https://github.com/o/demo.git"));
    let key = stable_skill_key(&git).unwrap();
    let states = vec![state(git, &["Web", "api", "web"]), state(record("l", "mine", "local", None), &[])];
    let gone = profile_skill("v1:git:gone", "gone", "git");
    let base = document("p", 2, vec![gone]);
    let (doc, skipped) = build_local_document(&states, Some(&base), "p", "device-a", 50, config());
    assert_eq!(skipped, vec!["mine".to_string()]);
    assert_eq!(doc.profile_id, "p");
    assert_eq!(doc.skills.len(), 2);
    let live = doc.skills.iter().find(|s| s.key == key).unwrap();
    assert_eq!(live.targets, vec!["codex".to_string(), "cursor".to_string()]);
    assert_eq!(live.tags, vec!["api".to_string(), "Web".to_string()]);
    assert_eq!(live.updated_by, "device-a");
    let tomb = doc.skills.iter().find(|s| s.key == "v1:git:gone").unwrap();
    assert_eq!(tomb.deleted_at, Some(50));
    assert!(doc.skills.windows(2).all(|w| w[0].key < w[1].key));

    assert_eq!(
        profile_targets(&vec![LocalTarget { tool: "b".to_string(), scope: "global".to_string() }]),
        vec!["b".to_string()]
    );
    assert_eq!(
        profile_tags(&vec!["b".to_string(), "A".to_string(), "a".to_string()]),
        vec!["A".to_string(), "b".to_string()]
    );
}

#[test]
fn listing_helpers() {
    assert!(filter_keeps("syncable", "git"));
    assert!(!filter_keeps("syncable", "local"));
    assert!(filter_keeps("local", "local"));
    assert!(filter_keeps("all", "package"));
    assert_eq!(
        list_line("demo", "git", "/c/demo", 2),
        "demo  [git]  (syncable)  /c/demo  -> 2 target(s)"
    );
    assert_eq!(
        package_author("package", &Some("npm:@scope/pkg".to_string())),
        Some("scope".to_string())
    );
    assert_eq!(package_author("git", &Some("@scope/pkg".to_string())), None);
    let rules = OriginRules { my_git_owners: vec!["me".to_string()], ..OriginRules::default() };
    let origin = fallback_cli_origin(&record("1", "x", "git", Some("https://github.com/me/x")), &rules);
    assert_eq!(origin.role, "mine");
    assert_eq!(origin.publish_strategy, "git_push");
    let author = skill_author(&Some(origin), None);
    assert_eq!(author.kind, "current");
    assert_eq!(author.repository.as_deref(), Some("me/x"));
    let third = skill_author(&None, Some("scope".to_string()));
    assert_eq!(third.kind, "thirdParty");
    assert_eq!(third.name.as_deref(), Some("scope"));
}

#[test]
fn known_projects_are_unique_and_sorted() {
    let recent = vec!["/b".to_string(), " ".to_string(), "/a".to_string(), "/b".to_string()];
    let targets = vec![
        TargetScope { scope: "project".to_string(), project_path: Some("/c".to_string()) },
        TargetScope { scope: "global".to_string(), project_path: Some("/d".to_string()) },
    ];
    assert_eq!(
        known_project_paths(&recent, &targets),
        vec!["/a".to_string(), "/b".to_string(), "/c".to_string()]
    );
}

#[test]
fn recent_projects_are_deduped_ordered_and_limited() {
    let paths: Vec<String> = (0..9).map(|i| format!("/work/project-{i}")).collect();
    let mut recent: Vec<String> = Vec::new();
    for path in &paths {
        recent = remember_recent(&recent, path, RECENT_PICKER_LIMIT);
    }
    assert_eq!(recent.len(), 8);
    assert_eq!(recent[0], paths[8]);
    assert_eq!(recent[7], paths[1]);
    assert!(!recent.contains(&paths[0]));

    recent = remember_recent(&recent, &paths[3], RECENT_PICKER_LIMIT);
    assert_eq!(recent.len(), 8);
    assert_eq!(recent[0], paths[3]);
    assert_eq!(recent.iter().filter(|item| *item == &paths[3]).count(), 1);
}

#[test]
fn remembered_projects_keep_their_order_below_the_limit() {
    let recent = vec!["/a".to_string(), "/b".to_string(), "/c".to_string()];
    assert_eq!(
        remember_recent(&recent, "/b", RECENT_PROJECTS_LIMIT),
        vec!["/b".to_string(), "/a".to_string(), "/c".to_string()]
    );
    assert_eq!(remember_recent(&recent, "/d", 2), vec!["/d".to_string(), "/a".to_string()]);
}

#[test]
fn only_git_push_origins_are_publishable() {
    let origin = |strategy: &str| SkillOriginRecord {
        skill_id: "s".to_string(),
        origin_kind: "git".to_string(),
        origin_role: "mine".to_string(),
        provider: None,
        remote_url: None,
        owner: None,
        repo: None,
        branch: None,
        subpath: None,
        update_strategy: "git_pull".to_string(),
        publish_strategy: strategy.to_string(),
        manual_override: false,
        reason: None,
        updated_at: 0,
    };
    assert!(publishable(&Some(origin("git_push"))));
    assert!(!publishable(&Some(origin("none"))));
    assert!(!publishable(&None));
}
