use skilldo::github::{empty_token_status, network_error_status, parse_scopes, token_status_from_reply};
use skilldo::github::{first_token, tally_owners, RepoOwner};
use skilldo::explore::{
    dedupe_skills, edit_source, filter_by_query, index_items, index_skill, parse_json, new_cli_source, remove_source, sanitize_id,
    skill_from_online, ExploreSkill, ExploreSourceConfig, IndexItemFields, SourceEdit,
};
use skilldo::publish::{
    authenticated_url, commit_message, create_endpoint, effective_owner, existing_clone_url,
    has_origin_remote, published_origin, push_branch, slugify, LlmRepoNameStrategy,
    RepoNameStrategy, SlugifyStrategy,
};
use skilldo::search::{
    featured_with_source, fetch_featured_skills, online_result, search_hits, search_url, FeaturedSkill,
    SKILLS_SH_BASE,
};

fn source(id: &str) -> ExploreSourceConfig {
    ExploreSourceConfig {
        id: id.to_string(),
        name: "Index".to_string(),
        kind: "json_index".to_string(),
        endpoint: "https://x/y.json".to_string(),
        enabled: true,
        builtin: false,
    }
}

fn fields(name: Option<&str>, src: Option<&str>, slug: Option<&str>) -> IndexItemFields {
    IndexItemFields {
        name: name.map(|s| s.to_string()),
        source: src.map(|s| s.to_string()),
        summary: None,
        slug: slug.map(|s| s.to_string()),
        downloads: None,
        stars: None,
    }
}

fn listed(name: &str, url: &str, summary: &str) -> ExploreSkill {
    ExploreSkill {
        id: name.to_string(),
        name: name.to_string(),
        summary: summary.to_string(),
        source_url: url.to_string(),
        source_name: "s".to_string(),
        source_kind: "json_index".to_string(),
        downloads: 0,
        stars: 0,
    }
}

fn featured(slug: &str, url: &str) -> FeaturedSkill {
    FeaturedSkill {
        slug: slug.to_string(),
        name: slug.to_string(),
        summary: String::new(),
        downloads: 1,
        stars: 2,
        source_url: url.to_string(),
    }
}

fn test_source(id: &str) -> ExploreSourceConfig {
    ExploreSourceConfig {
        id: id.to_string(),
        name: id.to_string(),
        kind: "json_index".to_string(),
        endpoint: String::new(),
        enabled: true,
        builtin: false,
    }
}

fn parse_index_json(json: &str, src: &ExploreSourceConfig) -> Option<Vec<ExploreSkill>> {
    parse_json(json).map(|doc| index_items(&doc, src))
}

#[test]
fn parse_index_supports_skills_items_and_data() {
    let src = test_source("s");
    let a = parse_index_json(r#"{"skills":[{"name":"a","source_url":"https://github.com/x/a"}]}"#, &src).unwrap();
    assert_eq!(a.len(), 1);
    assert_eq!(a[0].name, "a");

    let b = parse_index_json(r#"{"items":[{"title":"b","url":"owner/b"}]}"#, &src).unwrap();
    assert_eq!(b[0].name, "b");
    assert_eq!(b[0].source_url, "https://github.com/owner/b");

    let c = parse_index_json(r#"{"data":[{"slug":"c","repo":"https://gitlab.com/g/c"}]}"#, &src).unwrap();
    assert_eq!(c[0].name, "c");
    assert_eq!(c[0].source_url, "https://gitlab.com/g/c");
}

#[test]
fn parse_index_skips_items_without_source_url() {
    let src = test_source("s");
    let skills = parse_index_json(
        r#"{"skills":[{"name":"a","source_url":"https://github.com/x/a"},{"name":"bad"}]}"#,
        &src,
    )
    .unwrap();
    assert_eq!(skills.len(), 1);
}

#[test]
fn index_reads_numbers_aliases_and_bare_arrays() {
    let src = test_source("s");
    let k = parse_index_json(
        r#"[{"name":7,"title":"t","id":"slug-1","sourceUrl":"o/r","desc":"d","installs":5,"github_stars":3,"stars":-1}]"#,
        &src,
    )
    .unwrap();
    assert_eq!(k.len(), 1);
    assert_eq!(k[0].name, "t");
    assert_eq!(k[0].id, "s:slug-1");
    assert_eq!(k[0].summary, "d");
    assert_eq!(k[0].downloads, 5);
    assert_eq!(k[0].stars, 3);
    assert_eq!(k[0].source_name, "s");
    assert!(parse_index_json(r#"{"skills":{"name":"a"}}"#, &src).unwrap().is_empty());
    assert!(parse_index_json(r#"{"other":[]}"#, &src).unwrap().is_empty());
    assert!(parse_index_json("not json", &src).is_none());
}

#[test]
fn index_entry_fields_become_skills() {
    let src = source("custom-1");
    let a = index_skill(fields(Some("a"), Some("https://github.com/x/a"), None), &src).unwrap();
    assert_eq!(a.source_url, "https://github.com/x/a");
    assert_eq!(a.id, "custom-1:a");
    let b = index_skill(fields(Some("b"), Some("owner/b"), None), &src).unwrap();
    assert_eq!(b.source_url, "https://github.com/owner/b");
    let c = index_skill(fields(Some("c"), Some("https://gitlab.com/g/c"), Some("c")), &src).unwrap();
    assert_eq!(c.source_kind, "json_index");
    assert!(index_skill(fields(Some("bad"), None, None), &src).is_none());
}

#[test]
fn online_hits_become_explore_skills() {
    let hit = online_result("demo".to_string(), 42, "owner/repo".to_string());
    assert_eq!(hit.source_url, "https://github.com/owner/repo");
    let skill = skill_from_online(hit, &source("skills-sh"));
    assert_eq!(skill.id, "skills-sh:owner/repo");
    assert_eq!(skill.downloads, 42);
    assert_eq!(skill.stars, 0);
}

#[test]
fn search_url_encodes_query_and_clamps_limit() {
    assert_eq!(
        search_url("https://skills.sh/", "a b&c", 100),
        "https://skills.sh/api/search?q=a%20b%26c&limit=50"
    );
    assert_eq!(
        search_url(SKILLS_SH_BASE, "x", 0),
        "https://skills.sh/api/search?q=x&limit=1"
    );
}

#[test]
fn featured_list_falls_back_in_order() {
    let fetched = vec![featured("a", ""), featured("b", "https://github.com/o/b")];
    assert_eq!(featured_with_source(&fetched).len(), 1);
    let (list, fresh) = fetch_featured_skills(Some(fetched), None, None);
    assert!(fresh);
    assert_eq!(list[0].slug, "b");
    let (list, fresh) = fetch_featured_skills(
        Some(vec![featured("a", "")]),
        Some(vec![featured("c", "https://github.com/o/c")]),
        Some(vec![featured("d", "https://github.com/o/d")]),
    );
    assert!(!fresh);
    assert_eq!(list[0].slug, "c");
    let (list, fresh) = fetch_featured_skills(None, None, Some(vec![featured("d", "u")]));
    assert!(!fresh);
    assert_eq!(list[0].slug, "d");
    let (list, _) = fetch_featured_skills(None, None, None);
    assert!(list.is_empty());
}

#[test]
fn filter_and_dedupe_listed_skills() {
    let skills = vec![
        listed("Alpha", "https://github.com/o/alpha", ""),
        listed("beta", "https://github.com/o/beta", "has ALPHA inside"),
        listed("gamma", "https://github.com/o/gamma", ""),
    ];
    let hits = filter_by_query(skills, "alpha");
    assert_eq!(hits.len(), 2);
    assert_eq!(hits[1].name, "beta");

    let collected = vec![
        listed("Demo", "https://github.com/o/demo", "first"),
        listed("demo", "https://github.com/o/demo", "second"),
        listed("other", "https://github.com/o/other", ""),
    ];
    let out = dedupe_skills(collected.clone(), 10);
    assert_eq!(out.len(), 2);
    assert_eq!(out[0].summary, "first");
    assert_eq!(dedupe_skills(collected, 0).len(), 1);
}

#[test]
fn slugify_makes_repository_names() {
    assert_eq!(slugify("My Skill!!"), "my-skill");
    assert_eq!(slugify("--Hello__World--"), "hello-world");
    assert_eq!(slugify("技能"), "skill");
    assert_eq!(SlugifyStrategy.repo_name("Demo Skill", None), "demo-skill");
    assert_eq!(SlugifyStrategy.repo_name("Demo", Some("  ")), "demo");
    assert_eq!(LlmRepoNameStrategy.repo_name("Demo", Some("Better Name")), "better-name");
}

#[test]
fn github_publish_helpers() {
    assert_eq!(effective_owner(Some(""), "me"), "me");
    assert_eq!(effective_owner(Some("org"), "me"), "org");
    assert_eq!(effective_owner(None, "me"), "me");
    assert_eq!(
        create_endpoint("me", "me"),
        ("https://api.github.com/user/repos".to_string(), None)
    );
    assert_eq!(
        create_endpoint("org", "me"),
        ("https://api.github.com/orgs/org/repos".to_string(), Some("org".to_string()))
    );
    assert_eq!(existing_clone_url("", "me", "demo"), "https://github.com/me/demo.git");
    assert_eq!(
        authenticated_url("https://github.com/o/r.git", " tok "),
        "https://tok@github.com/o/r.git"
    );
    assert_eq!(authenticated_url("git@github.com:o/r.git", "tok"), "git@github.com:o/r.git");
    assert!(has_origin_remote("upstream\norigin\n"));
    assert!(!has_origin_remote("origin2\nmy-origin"));
    assert_eq!(commit_message(Some("  "), "demo"), "Initial commit for skill demo");
    assert_eq!(commit_message(Some("fix"), "demo"), "fix");
    assert_eq!(push_branch(" main\n"), Some("main".to_string()));
    assert_eq!(push_branch("HEAD"), None);
    let origin = published_origin("id", "https://github.com/me/demo.git", "me", "demo", "main", 9);
    assert_eq!(origin.origin_role, "mine");
    assert_eq!(origin.publish_strategy, "git_push");
    assert_eq!(origin.owner.as_deref(), Some("me"));
    assert_eq!(origin.updated_at, 9);
}

#[test]
fn github_token_status_follows_the_reply() {
    assert_eq!(parse_scopes(" repo, read:org ,,"), vec!["repo".to_string(), "read:org".to_string()]);
    assert!(parse_scopes("").is_empty());
    let refused = token_status_from_reply(401, "401 Unauthorized", vec![], Some("me".to_string()));
    assert!(!refused.valid);
    assert_eq!(refused.login, None);
    assert_eq!(refused.error.as_deref(), Some("GitHub 拒绝该 token（HTTP 401 Unauthorized）"));
    let ok = token_status_from_reply(200, "200 OK", vec!["repo".to_string()], Some("me".to_string()));
    assert!(ok.valid);
    assert_eq!(ok.login.as_deref(), Some("me"));
    assert_eq!(ok.scopes, vec!["repo".to_string()]);
    let odd = token_status_from_reply(500, "500 Internal Server Error", vec![], None);
    assert_eq!(odd.error.as_deref(), Some("GitHub 返回 HTTP 500 Internal Server Error"));
    assert_eq!(empty_token_status().error.as_deref(), Some("token 为空"));
    assert_eq!(network_error_status("timeout").error.as_deref(), Some("网络错误: timeout"));
}

#[test]
fn github_owners_are_counted_and_ordered() {
    let repo = |login: Option<&str>, avatar: Option<&str>| RepoOwner {
        login: login.map(str::to_string),
        avatar_url: avatar.map(str::to_string),
    };
    let owners = tally_owners(&vec![
        repo(Some("zed"), None),
        repo(Some("acme"), Some("a1")),
        repo(Some("zed"), Some("z2")),
        repo(None, None),
        repo(Some("acme"), Some("a2")),
        repo(Some("bob"), Some("b1")),
    ]);
    let view: Vec<(String, usize, Option<String>)> =
        owners.into_iter().map(|o| (o.login, o.repo_count, o.avatar_url)).collect();
    assert_eq!(
        view,
        vec![
            ("acme".to_string(), 2, Some("a1".to_string())),
            ("zed".to_string(), 2, None),
            ("bob".to_string(), 1, Some("b1".to_string())),
        ]
    );
}

#[test]
fn source_ids_become_safe_directory_names() {
    assert_eq!(sanitize_id("official-skills_v2"), "official-skills_v2");
    assert_eq!(sanitize_id("github.com/a b:c"), "github_com_a_b_c");
    assert_eq!(sanitize_id("技能源"), "技能源");
    assert_eq!(sanitize_id(""), "");
}

fn src(id: &str, enabled: bool) -> ExploreSourceConfig {
    ExploreSourceConfig {
        id: id.to_string(),
        name: format!("{id} name"),
        kind: "index".to_string(),
        endpoint: format!("https://example.com/{id}.json"),
        enabled,
        builtin: false,
    }
}

#[test]
fn editing_a_source_changes_only_given_fields() {
    let mut sources = vec![src("a", true), src("b", true), src("b", false)];
    edit_source(
        &mut sources,
        "b",
        SourceEdit { name: Some("B".to_string()), kind: None, endpoint: None, enabled: Some(false) },
    )
    .unwrap();
    assert_eq!(sources[1].name, "B");
    assert!(!sources[1].enabled);
    assert_eq!(sources[1].endpoint, "https://example.com/b.json");
    assert_eq!(sources[2].name, "b name");
    assert_eq!(sources[0].name, "a name");
    let err = edit_source(&mut sources, "zz", SourceEdit::default()).unwrap_err();
    assert_eq!(err, "未找到源: zz");
    assert_eq!(sources.len(), 3);
}

#[test]
fn removing_a_source_drops_every_entry_with_its_id() {
    let mut sources = vec![src("a", true), src("b", true), src("b", false), src("c", true)];
    remove_source(&mut sources, "b").unwrap();
    let ids: Vec<&str> = sources.iter().map(|s| s.id.as_str()).collect();
    assert_eq!(ids, vec!["a", "c"]);
    assert_eq!(remove_source(&mut sources, "b").unwrap_err(), "未找到源: b");
    assert_eq!(sources.len(), 2);
}

#[test]
fn command_line_sources_are_named_by_creation_time() {
    let s = new_cli_source("Mine", "index", "https://x/y.json", true, 1700000000);
    assert_eq!(s.id, "cli-1700000000");
    assert_eq!(s.name, "Mine");
    assert!(s.enabled);
    assert!(!s.builtin);
}

#[test]
fn token_comes_from_first_non_blank_candidate() {
    let c = vec![Some("  ".to_string()), None, Some(" ghp_stored \n".to_string()), Some("ghp_gh".to_string())];
    assert_eq!(first_token(&c).as_deref(), Some("ghp_stored"));
    assert_eq!(first_token(&vec![Some("ghp_x".to_string()), Some("ghp_y".to_string())]).as_deref(), Some("ghp_x"));
    assert_eq!(first_token(&vec![None, Some(String::new())]), None);
    assert_eq!(first_token(&Vec::new()), None);
}

#[test]
fn search_replies_are_read_strictly() {
    let hits = search_hits(
        &parse_json(r#"{"skills":[{"name":"demo","installs":42,"source":"owner/repo","extra":1}]}"#).unwrap(),
    )
    .unwrap();
    assert_eq!(hits.len(), 1);
    assert_eq!(hits[0].name, "demo");
    assert_eq!(hits[0].installs, 42);
    assert_eq!(hits[0].source_url, "https://github.com/owner/repo");
    assert!(search_hits(&parse_json(r#"{"skills":[{"name":"demo","source":"o/r"}]}"#).unwrap()).is_none());
    assert!(search_hits(&parse_json(r#"{"items":[]}"#).unwrap()).is_none());
    assert!(search_hits(&parse_json(r#"{"skills":[]}"#).unwrap()).unwrap().is_empty());
}
