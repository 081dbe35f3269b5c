use skilldo::app_config::{normalize_rules, OriginRules};
use skilldo::managed::{
    apply_featured_source, apply_source_origin, featured_origin_pairs, featured_origin_table,
    featured_source_for, known_official_pairs, manual_origin_record, manual_origin_record_at,
    origin_record_from_inferred, resolve_managed_origin, source_origin_label, FeaturedOriginEntry,
};
use skilldo::origin::{infer_source_origin, LocalGit};
use skilldo::records::{SkillOriginRecord, SkillRecord};

fn local_skill(name: &str, source_ref: &str) -> SkillRecord {
    SkillRecord {
        id: "s1".to_string(),
        name: name.to_string(),
        description: None,
        source_type: "local".to_string(),
        source_ref: Some(source_ref.to_string()),
        source_subpath: None,
        source_revision: None,
        central_path: "/tmp/central".to_string(),
        content_hash: None,
        created_at: 1,
        updated_at: 2,
        last_sync_at: None,
        last_seen_at: 1,
        status: "ok".to_string(),
    }
}

fn entry(slug: &str, name: &str, url: &str) -> FeaturedOriginEntry {
    FeaturedOriginEntry { slug: slug.to_string(), name: name.to_string(), source_url: url.to_string() }
}

#[test]
fn plain_local_skill_is_shown_as_local() {
    let mut skill = local_skill("S1", "/tmp/src");
    let table = featured_origin_table(None, &Vec::new());
    let featured = featured_source_for(&table, &skill.name);
    let resolved = resolve_managed_origin(
        &mut skill,
        None,
        featured.as_deref(),
        &OriginRules::default(),
        &LocalGit::NotInRepository,
        5,
    );
    let label = source_origin_label(&resolved.record.origin_kind, &resolved.record.origin_role);
    assert_eq!(label, "local");
    assert!(!resolved.skill_changed);
    assert!(resolved.record_changed);
    assert_eq!(resolved.record.skill_id, "s1");
    assert_eq!(resolved.record.updated_at, 5);
}

#[test]
fn get_managed_skills_backfills_known_npx_installed_official_skill() {
    let mut skill = local_skill("cloudflare", "/tmp/cloudflare-source");
    let table = featured_origin_table(None, &Vec::new());
    let featured = featured_source_for(&table, &skill.name);
    let resolved = resolve_managed_origin(
        &mut skill,
        None,
        featured.as_deref(),
        &OriginRules::default(),
        &LocalGit::NotInRepository,
        7,
    );
    let label = source_origin_label(&resolved.record.origin_kind, &resolved.record.origin_role);
    assert_eq!(label, "official");
    assert_eq!(resolved.record.update_strategy, "git_pull");
    assert_eq!(
        resolved.record.remote_url.as_deref(),
        Some("https://github.com/cloudflare/skills/tree/main/skills/cloudflare")
    );
    assert!(resolved.skill_changed);
    assert_eq!(skill.source_type, "git");
    assert_eq!(
        skill.source_ref.as_deref(),
        Some("https://github.com/cloudflare/skills/tree/main/skills/cloudflare")
    );
}

#[test]
fn get_managed_skills_backfills_featured_local_skill_to_official_git() {
    let bundled = vec![entry(
        "skill-creator",
        "skill-creator",
        "https://github.com/anthropics/skills/tree/main/skills/skill-creator",
    )];
    let mut skill = local_skill("skill-creator", "/tmp/skill-creator-source");
    let table = featured_origin_table(None, &bundled);
    let featured = featured_source_for(&table, &skill.name);
    let resolved = resolve_managed_origin(
        &mut skill,
        None,
        featured.as_deref(),
        &OriginRules::default(),
        &LocalGit::NotInRepository,
        7,
    );
    let label = source_origin_label(&resolved.record.origin_kind, &resolved.record.origin_role);
    assert_eq!(label, "official");
    assert_eq!(resolved.record.update_strategy, "git_pull");
    assert!(resolved.record.remote_url.as_deref().unwrap_or_default().contains("github.com"));
    assert_eq!(skill.source_type, "git");
    assert!(skill.source_ref.as_deref().unwrap_or_default().contains("github.com"));
}

#[test]
fn origin_rules_classify_local_git_repo_as_repository() {
    let rules = OriginRules::default();
    let inferred = infer_source_origin(
        "local",
        Some("/tmp/x/my-skill"),
        "/tmp/central",
        &rules,
        &LocalGit::Origin("https://github.com/example/my-skill.git".to_string()),
    );
    assert_eq!(inferred.origin_kind, "git");
    assert_eq!(inferred.origin_role, "repository");
    assert_eq!(inferred.publish_strategy, "none");
}

#[test]
fn origin_rules_do_not_classify_matched_local_git_repo_as_mine() {
    let rules = normalize_rules(OriginRules {
        my_git_owners: vec!["example".to_string()],
        my_git_repos: vec![],
        official_git_repos: vec![],
    });
    let inferred = infer_source_origin(
        "local",
        Some("/tmp/x/my-skill"),
        "/tmp/central",
        &rules,
        &LocalGit::Origin("https://github.com/example/my-skill.git".to_string()),
    );
    assert_eq!(inferred.origin_kind, "git");
    assert_eq!(inferred.origin_role, "repository");
    assert_eq!(inferred.publish_strategy, "none");
    assert_eq!(inferred.owner.as_deref(), Some("example"));
    assert_eq!(inferred.repo.as_deref(), Some("my-skill"));
}

#[test]
fn labels_follow_kind_then_role() {
    assert_eq!(source_origin_label("official", "mine"), "official");
    assert_eq!(source_origin_label("git", "official"), "official");
    assert_eq!(source_origin_label("git", "owned"), "my_git");
    assert_eq!(source_origin_label("git", "mine"), "my_git");
    assert_eq!(source_origin_label("git", "third_party"), "git");
    assert_eq!(source_origin_label("package", "repository"), "package");
    assert_eq!(source_origin_label("local", "mine"), "local");
    assert_eq!(source_origin_label("other", "x"), "local");
}

fn stored_origin(manual: bool) -> SkillOriginRecord {
    SkillOriginRecord {
        skill_id: "s1".to_string(),
        origin_kind: "git".to_string(),
        origin_role: "repository".to_string(),
        provider: Some("git".to_string()),
        remote_url: Some("https://github.com/a/b".to_string()),
        owner: Some("a".to_string()),
        repo: Some("b".to_string()),
        branch: Some("main".to_string()),
        subpath: None,
        update_strategy: "git_pull".to_string(),
        publish_strategy: "none".to_string(),
        manual_override: manual,
        reason: None,
        updated_at: 3,
    }
}

#[test]
fn manual_override_sets_each_origin_and_keeps_the_remote() {
    let cases = [
        ("official", "official", "official", "official", "provider_refresh", "none", "official"),
        ("my_git", "git", "mine", "git", "git_pull", "git_push", "my_git"),
        ("third_party_git", "git", "third_party", "git", "git_pull", "none", "git"),
        ("package", "package", "repository", "npm", "package_refresh", "none", "package"),
        ("local", "local", "mine", "local", "local_copy", "none", "local"),
    ];
    for (name, kind, role, provider, update, publish, label) in cases {
        let rec = apply_source_origin(stored_origin(false), name, 9).unwrap();
        assert_eq!(rec.origin_kind, kind);
        assert_eq!(rec.origin_role, role);
        assert_eq!(rec.provider.as_deref(), Some(provider));
        assert_eq!(rec.update_strategy, update);
        assert_eq!(rec.publish_strategy, publish);
        assert!(rec.manual_override);
        assert_eq!(rec.reason.as_deref(), Some("manual override"));
        assert_eq!(rec.updated_at, 9);
        assert_eq!(rec.remote_url.as_deref(), Some("https://github.com/a/b"));
        assert_eq!(rec.branch.as_deref(), Some("main"));
        assert_eq!(source_origin_label(&rec.origin_kind, &rec.origin_role), label);
    }
}

#[test]
fn manual_override_rejects_unknown_origin() {
    let err = apply_source_origin(stored_origin(false), "vendor", 9).unwrap_err();
    assert_eq!(err, "invalid source_origin: vendor");
    let skill = local_skill("x", "/tmp/x");
    let err = manual_origin_record(&skill, None, "", &LocalGit::NotInRepository).unwrap_err();
    assert_eq!(err, "invalid source_origin: ");
}

#[test]
fn manual_override_without_stored_record_starts_from_inference() {
    let skill = local_skill("x", "/tmp/x");
    let rec = manual_origin_record_at(&skill, None, "my_git", &LocalGit::NoOrigin, 11).unwrap();
    assert_eq!(rec.skill_id, "s1");
    assert_eq!(rec.origin_kind, "git");
    assert_eq!(rec.origin_role, "mine");
    assert_eq!(rec.remote_url, None);
    assert_eq!(rec.updated_at, 11);
    let rec = manual_origin_record(&skill, Some(stored_origin(false)), "local", &LocalGit::NoOrigin).unwrap();
    assert_eq!(rec.origin_kind, "local");
    assert_eq!(rec.owner.as_deref(), Some("a"));
}

#[test]
fn stored_manual_override_is_kept() {
    let mut skill = local_skill("cloudflare", "/tmp/cloudflare-source");
    let resolved = resolve_managed_origin(
        &mut skill,
        Some(stored_origin(true)),
        Some("https://github.com/cloudflare/skills/tree/main/skills/cloudflare"),
        &OriginRules::default(),
        &LocalGit::NotInRepository,
        7,
    );
    assert!(!resolved.skill_changed);
    assert!(!resolved.record_changed);
    assert_eq!(resolved.record.origin_kind, "git");
    assert_eq!(resolved.record.updated_at, 3);
    assert_eq!(skill.source_type, "local");
}

#[test]
fn featured_backfill_skips_same_source_and_git_skills() {
    let url = "https://github.com/cloudflare/skills/tree/main/skills/cloudflare";
    let mut same = local_skill("cloudflare", "git+https://GitHub.com/cloudflare/skills/tree/main/skills/cloudflare.git");
    assert!(!apply_featured_source(&mut same, Some(url)));
    assert_eq!(same.source_type, "local");
    let mut git = local_skill("cloudflare", "/tmp/x");
    git.source_type = "git".to_string();
    assert!(!apply_featured_source(&mut git, Some(url)));
    let mut none = local_skill("cloudflare", "/tmp/x");
    assert!(!apply_featured_source(&mut none, None));
    let mut local = local_skill("cloudflare", "/tmp/x");
    local.source_subpath = Some("sub".to_string());
    assert!(apply_featured_source(&mut local, Some(url)));
    assert_eq!(local.source_subpath, None);
    assert_eq!(local.source_ref.as_deref(), Some(url));
}

#[test]
fn featured_table_prefers_cached_list_and_later_entries() {
    let cached = vec![
        entry("web-perf", "Web Perf", "https://example.com/cached-web-perf"),
        entry("blank", "Blank", "   "),
    ];
    let bundled = vec![entry("bundled", "Bundled", "https://example.com/bundled")];
    let table = featured_origin_table(Some(&cached), &bundled);
    assert_eq!(table.len(), known_official_pairs().len() + 2);
    assert_eq!(
        featured_source_for(&table, "  WEB-PERF ").as_deref(),
        Some("https://example.com/cached-web-perf")
    );
    assert_eq!(featured_source_for(&table, "bundled"), None);
    assert_eq!(featured_source_for(&table, "blank"), None);
    let empty_cache: Vec<FeaturedOriginEntry> = vec![entry("blank", "Blank", "")];
    let table = featured_origin_table(Some(&empty_cache), &bundled);
    assert_eq!(featured_source_for(&table, "Bundled").as_deref(), Some("https://example.com/bundled"));
    let pairs = featured_origin_pairs(&cached);
    assert_eq!(pairs.len(), 2);
    assert_eq!(pairs[0].0, "web perf");
    assert_eq!(pairs[1].0, "web-perf");
}

#[test]
fn inferred_record_carries_subpath_and_reason() {
    let mut skill = local_skill("x", "/tmp/x");
    skill.source_subpath = Some("skills/x".to_string());
    let inferred = infer_source_origin(
        "local",
        Some("/tmp/x"),
        "/tmp/central",
        &OriginRules::default(),
        &LocalGit::NotInRepository,
    );
    let rec = origin_record_from_inferred(&skill, inferred, 4);
    assert_eq!(rec.subpath.as_deref(), Some("skills/x"));
    assert_eq!(rec.branch, None);
    assert!(!rec.manual_override);
    assert_eq!(rec.reason.as_deref(), Some("no git or official source metadata found"));
    assert_eq!(rec.origin_kind, "local");
}

#[test]
fn normalized_rules_read_back_unchanged() {
    let rules = OriginRules {
        my_git_owners: vec!["  Example ".to_string(), "example".to_string(), "".to_string()],
        my_git_repos: vec!["HTTPS://GitHub.com/Org/Repo.git".to_string(), "www.https://x/y".to_string()],
        official_git_repos: vec!["https:// spaced.git ".to_string()],
    };
    let once = normalize_rules(rules);
    assert_eq!(once.my_git_owners, vec!["example".to_string()]);
    assert_eq!(once.my_git_repos, vec!["github.com/org/repo".to_string(), "x/y".to_string()]);
    assert_eq!(once.official_git_repos, vec!["spaced".to_string()]);
    let twice = normalize_rules(once.clone());
    assert_eq!(twice.my_git_owners, once.my_git_owners);
    assert_eq!(twice.my_git_repos, once.my_git_repos);
    assert_eq!(twice.official_git_repos, once.official_git_repos);
}
