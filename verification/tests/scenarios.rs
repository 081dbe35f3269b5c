use skilldo::app_config::{normalize_rules, AppConfig, OriginRules, WebDavConfig, CONFIG_VERSION};
use skilldo::cli_rules::normalize_scope;
use skilldo::config::{
    APP_IDENTIFIER, CENTRAL_DIR_NAME, FEATURED_SKILLS_URL, GITHUB_REPO_PATH, GIT_CACHE_DIR_NAME,
    UPDATER_URL,
};
use skilldo::errors::format_anyhow_error;
use skilldo::explore::{normalize_source_url, normalize_source_value};
use skilldo::origin::{infer_source_origin, LocalGit};
use skilldo::project::normalize_repository_url;
use skilldo::webdav::{backup_remote_path, collection_paths, BACKUP_REMOTE_FILE};

#[test]
fn format_anyhow_error_passthrough_prefixes() {
    let err = anyhow::Error::msg("MULTI_SKILLS|abc");
    assert_eq!(format_anyhow_error(err), "MULTI_SKILLS|abc");
}

#[test]
fn format_anyhow_error_redacts_clone_temp_path() {
    let err = anyhow::Error::msg("clone https://example.com/a/b into /tmp/skills-hub-git-123");
    let msg = format_anyhow_error(err);
    assert!(msg.contains("已省略临时目录"));
    assert!(!msg.contains("/tmp/skills-hub-git-123"));
}

#[test]
fn format_anyhow_error_github_hint_auth() {
    let err = anyhow::Error::msg("git clone https://github.com/a/b failed: authentication failed");
    let msg = format_anyhow_error(err);
    assert!(msg.contains("无法访问该仓库"));
}

#[test]
fn normalize_scope_defaults_to_global_and_rejects_unknown() {
    assert_eq!(normalize_scope(None).unwrap(), "global");
    assert_eq!(normalize_scope(Some("global")).unwrap(), "global");
    assert_eq!(normalize_scope(Some("project")).unwrap(), "project");
    assert!(normalize_scope(Some("workspace")).is_err());
}

#[test]
fn origin_rules_do_not_classify_my_git_owner_automatically() {
    let rules = OriginRules {
        my_git_owners: vec!["yancongya".to_string()],
        my_git_repos: vec![],
        official_git_repos: vec![],
    };
    let rules = normalize_rules(rules);
    let inferred = infer_source_origin(
        "git",
        Some("https://github.com/yancongya/example-skill.git"),
        "/tmp/central",
        &rules,
        &LocalGit::NotInRepository,
    );
    assert_eq!(inferred.origin_kind, "git");
    assert_eq!(inferred.origin_role, "repository");
    assert_eq!(inferred.publish_strategy, "none");
}

#[test]
fn origin_rules_classify_official_repo() {
    let rules = OriginRules {
        my_git_owners: vec!["openai".to_string()],
        my_git_repos: vec![],
        official_git_repos: vec!["example/official-skills".to_string()],
    };
    let rules = normalize_rules(rules);
    let inferred = infer_source_origin(
        "git",
        Some("https://github.com/example/official-skills.git"),
        "/tmp/central",
        &rules,
        &LocalGit::NotInRepository,
    );
    assert_eq!(inferred.origin_kind, "official");
    assert_eq!(inferred.origin_role, "official");
    assert_eq!(inferred.publish_strategy, "none");
}

#[test]
fn origin_rules_classify_package_source() {
    let rules = OriginRules::default();
    let inferred = infer_source_origin(
        "package",
        Some(r#"{"package":"@vendor/skills","command":"npx --yes {package} {dest}"}"#),
        "/tmp/central",
        &rules,
        &LocalGit::NotInRepository,
    );
    assert_eq!(inferred.origin_kind, "package");
    assert_eq!(inferred.origin_role, "repository");
    assert_eq!(inferred.update_strategy, "package_refresh");
    assert_eq!(inferred.publish_strategy, "none");
}

#[test]
fn origin_rules_do_not_treat_tool_skill_dirs_as_official() {
    let rules = OriginRules::default();
    let inferred = infer_source_origin(
        "local",
        Some("/Users/example/.cursor/skills/turnstile-spin"),
        "/Users/example/.skillshub/turnstile-spin",
        &rules,
        &LocalGit::NotInRepository,
    );
    assert_eq!(inferred.origin_kind, "local");
    assert_eq!(inferred.origin_role, "mine");
    assert_eq!(inferred.publish_strategy, "none");
}

fn config_with_secrets() -> AppConfig {
    AppConfig {
        config_version: CONFIG_VERSION,
        github_token: "github-secret".to_string(),
        webdav: Some(WebDavConfig {
            url: "https://dav.example.test".to_string(),
            user: "user".to_string(),
            password: "webdav-secret".to_string(),
            remote_dir: "skilldo".to_string(),
        }),
        ..AppConfig::default()
    }
}

#[test]
fn import_preserves_matching_local_credentials() {
    let current = config_with_secrets();
    let mut imported = current.sanitized_for_export();
    imported.preserve_missing_secrets_from(&current);
    assert_eq!(imported.github_token, "github-secret");
    assert_eq!(imported.webdav.unwrap().password, "webdav-secret");
}

#[test]
fn import_does_not_reuse_webdav_password_for_another_server() {
    let current = config_with_secrets();
    let mut imported = current.sanitized_for_export();
    imported.webdav.as_mut().unwrap().url = "https://other.example.test".to_string();
    imported.preserve_missing_secrets_from(&current);
    assert_eq!(imported.webdav.unwrap().password, "");
}

#[test]
fn constants_are_consistent() {
    assert!(APP_IDENTIFIER.contains("skillshub"));
    assert!(CENTRAL_DIR_NAME.starts_with('.'));
    assert!(GIT_CACHE_DIR_NAME.contains("skills-hub"));
    assert!(FEATURED_SKILLS_URL.contains(GITHUB_REPO_PATH));
    assert!(FEATURED_SKILLS_URL.ends_with(".json"));
    assert!(UPDATER_URL.contains(GITHUB_REPO_PATH));
    assert!(UPDATER_URL.ends_with("updater.json"));
}

#[test]
fn github_paths_compile() {
    assert_eq!(GITHUB_REPO_PATH, "yancongya/skills-hub");
}

#[test]
fn normalize_source_url_strips_github_prefix_and_tree() {
    assert_eq!(normalize_source_url("https://github.com/owner/repo"), "owner/repo");
    assert_eq!(normalize_source_url("https://github.com/owner/repo.git"), "owner/repo");
    assert_eq!(normalize_source_url("https://github.com/owner/repo/tree/main"), "owner/repo");
}

#[test]
fn normalize_source_value_only_expands_github_slugs() {
    assert_eq!(normalize_source_value("https://gitlab.com/g/p"), "https://gitlab.com/g/p");
    assert_eq!(normalize_source_value("owner/repo"), "https://github.com/owner/repo");
    assert_eq!(normalize_source_value("owner/repo.git"), "https://github.com/owner/repo");
    assert_eq!(normalize_source_value("gitlab.com/g/p"), "gitlab.com/g/p");
    assert_eq!(normalize_source_value("https://github.com/x/y"), "https://github.com/x/y");
    assert_eq!(normalize_source_value("git@github.com:x/y.git"), "git@github.com:x/y");
}

#[test]
fn repository_url_normalization_ignores_github_transport() {
    assert_eq!(
        normalize_repository_url("git@github.com:Example/Project.git"),
        normalize_repository_url("https://github.com/example/project")
    );
}

#[test]
fn collection_paths_builds_each_parent() {
    assert_eq!(
        collection_paths("/backups/skilldo/").unwrap(),
        vec!["backups", "backups/skilldo"]
    );
}

#[test]
fn collection_paths_rejects_parent_traversal() {
    assert!(collection_paths("backups/../private").is_err());
}

#[test]
fn backup_path_handles_empty_and_nested_directories() {
    assert_eq!(backup_remote_path(""), BACKUP_REMOTE_FILE);
    assert_eq!(
        backup_remote_path("/backups/skilldo/"),
        "backups/skilldo/skilldo-backup.json"
    );
}
