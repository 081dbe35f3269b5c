//! Classification of where a managed skill comes from (official source,
//! Git repository, package, local copy) and the normalization of the source
//! references it is classified by.

use vstd::prelude::*;
use crate::app_config::{opt_view, OriginRules};
use crate::order::views;
use crate::text::{
    after_first, after_first_vec, chars_of, contains, contains_vec, has_prefix, lowercase,
    lowercase_vec, replace_all, replace_vec, split_char, split_char_vec, starts_with_vec,
    string_of, strip_prefix_all, strip_prefix_all_vec, strip_suffix_all, strip_suffix_all_vec,
    trim, trim_vec,
};

verus! {

/// Source locations that are always treated as official skill sources.
pub open spec fn official_patterns() -> Seq<Seq<char>> {
    seq![
        "github.com/anthropics/skills"@,
        "github.com/openai/skills"@,
        "github.com/cloudflare/skills"@,
        "github.com/vercel-labs/skills"@,
        "github.com/openai/codex"@,
        "github.com/openai/openai-cookbook"@,
        ".codex/vendor_imports/skills"@,
        ".codex/plugins/cache/openai-bundled"@,
        ".codex/plugins/cache/openai-primary-runtime"@,
        ".codex/skills/.system"@,
    ]
}

fn official_pattern(i: usize) -> (r: &'static str)
    requires
        i < 10,
    ensures
        r@ == official_patterns()[i as int],
{
    match i {
        0 => "github.com/anthropics/skills",
        1 => "github.com/openai/skills",
        2 => "github.com/cloudflare/skills",
        3 => "github.com/vercel-labs/skills",
        4 => "github.com/openai/codex",
        5 => "github.com/openai/openai-cookbook",
        6 => ".codex/vendor_imports/skills",
        7 => ".codex/plugins/cache/openai-bundled",
        8 => ".codex/plugins/cache/openai-primary-runtime",
        _ => ".codex/skills/.system",
    }
}

/// Canonical form of a source reference: trimmed, lowercased, without
/// transport prefixes, `www.` or a `.git` suffix, with forward slashes and
/// GitHub SSH remotes rewritten to `github.com/owner/repo`.
pub open spec fn spec_normalize_source_ref(s: Seq<char>) -> Seq<char> {
    let a = strip_prefix_all(lowercase(trim(s)), "git+"@);
    let b = strip_prefix_all(a, "ssh://"@);
    let c = strip_suffix_all(b, ".git"@);
    let d = strip_prefix_all(c, "https://"@);
    let e = strip_prefix_all(d, "http://"@);
    let f = strip_prefix_all(e, "www."@);
    replace_all(replace_all(f, "\\"@, "/"@), "git@github.com:"@, "github.com/"@)
}

fn normalize_source_ref_vec(source: &str) -> (r: Vec<char>)
    ensures
        r@ == spec_normalize_source_ref(source@),
{
    let v = chars_of(source);
    let t = trim_vec(&v);
    let l = lowercase_vec(&t);
    let a = strip_prefix_all_vec(&l, &chars_of("git+"));
    let b = strip_prefix_all_vec(&a, &chars_of("ssh://"));
    let c = strip_suffix_all_vec(&b, &chars_of(".git"));
    let d = strip_prefix_all_vec(&c, &chars_of("https://"));
    let e = strip_prefix_all_vec(&d, &chars_of("http://"));
    let f = strip_prefix_all_vec(&e, &chars_of("www."));
    let g = replace_vec(&f, &chars_of("\\"), &chars_of("/"));
    replace_vec(&g, &chars_of("git@github.com:"), &chars_of("github.com/"))
}

/// Normalize a source reference for rule matching.
pub fn normalize_source_ref(source: &str) -> (r: String)
    ensures
        r@ == spec_normalize_source_ref(source@),
{
    string_of(&normalize_source_ref_vec(source))
}

/// The normalized source contains one of the official patterns.
pub open spec fn spec_is_official_source(source: Seq<char>) -> bool {
    exists|i: int|
        0 <= i < 10 && contains(spec_normalize_source_ref(source), lowercase(#[trigger] official_patterns()[i]))
}

/// Whether `source` points at an official skill source.
pub fn is_official_source(source: &str) -> (r: bool)
    ensures
        r == spec_is_official_source(source@),
{
    let n = normalize_source_ref_vec(source);
    let mut i: usize = 0;
    while i < 10
        invariant
            i <= 10,
            n@ == spec_normalize_source_ref(source@),
            forall|k: int| 0 <= k < i ==> !contains(n@, lowercase(#[trigger] official_patterns()[k])),
        decreases 10 - i,
    {
        let p = lowercase_vec(&chars_of(official_pattern(i)));
        if contains_vec(&n, &p) {
            return true;
        }
        i = i + 1;
    }
    false
}

/// The normalized source contains one of `rules` verbatim.
pub open spec fn spec_matches_repo_rule(source: Seq<char>, rules: Seq<Seq<char>>) -> bool {
    exists|i: int| 0 <= i < rules.len() && contains(spec_normalize_source_ref(source), #[trigger] rules[i])
}

/// Whether `source` matches one of the repository rules.
pub fn matches_repo_rule(source: &str, rules: &[String]) -> (r: bool)
    ensures
        r == spec_matches_repo_rule(source@, views(rules@)),
{
    let n = normalize_source_ref_vec(source);
    let mut i: usize = 0;
    while i < rules.len()
        invariant
            i <= rules@.len(),
            n@ == spec_normalize_source_ref(source@),
            forall|k: int| 0 <= k < i ==> !contains(n@, #[trigger] views(rules@)[k]),
        decreases rules.len() - i,
    {
        if contains_vec(&n, &chars_of(rules[i].as_str())) {
            assert(views(rules@)[i as int] == rules@[i as int]@);
            return true;
        }
        assert(views(rules@)[i as int] == rules@[i as int]@);
        i = i + 1;
    }
    false
}

/// `owner` is one of the user's owners, or `owner/repo` one of the user's
/// repositories, compared after lowercasing.
pub open spec fn spec_matches_my_git_rules(
    owner: Option<Seq<char>>,
    repo: Option<Seq<char>>,
    rules: OriginRules,
) -> bool {
    (owner is Some && exists|i: int|
        0 <= i < rules.my_git_owners@.len() && lowercase(#[trigger] rules.my_git_owners@[i]@)
            == lowercase(owner.unwrap()))
    || (owner is Some && repo is Some && exists|i: int|
        0 <= i < rules.my_git_repos@.len() && lowercase(#[trigger] rules.my_git_repos@[i]@)
            == lowercase(owner.unwrap() + "/"@ + repo.unwrap()))
}

fn any_lower_equal(list: &Vec<String>, target: &[char]) -> (r: bool)
    ensures
        r == exists|i: int| 0 <= i < list@.len() && lowercase(#[trigger] list@[i]@) == target@,
{
    let mut i: usize = 0;
    while i < list.len()
        invariant
            i <= list@.len(),
            forall|k: int| 0 <= k < i ==> lowercase(#[trigger] list@[k]@) != target@,
        decreases list.len() - i,
    {
        let l = lowercase_vec(&chars_of(list[i].as_str()));
        if crate::text::vec_eq(&l, target) {
            return true;
        }
        i = i + 1;
    }
    false
}

/// Whether an owner or owner/repo pair is listed in the user's own rules.
pub fn matches_my_git_rules(owner: Option<&str>, repo: Option<&str>, rules: &OriginRules) -> (r: bool)
    ensures
        r == spec_matches_my_git_rules(
            match owner { Some(o) => Some(o@), None => None },
            match repo { Some(x) => Some(x@), None => None },
            *rules,
        ),
{
    if let Some(o) = owner {
        let lo = lowercase_vec(&chars_of(o));
        if any_lower_equal(&rules.my_git_owners, &lo) {
            return true;
        }
        if let Some(r) = repo {
            let mut key = chars_of(o);
            crate::text::extend_vec(&mut key, &chars_of("/"));
            crate::text::extend_vec(&mut key, &chars_of(r));
            let lk = lowercase_vec(&key);
            if any_lower_equal(&rules.my_git_repos, &lk) {
                return true;
            }
        }
    }
    false
}

/// The key a skill name is looked up by: trimmed and lowercased.
pub fn normalize_skill_key(value: &str) -> (r: String)
    ensures
        r@ == lowercase(trim(value@)),
{
    string_of(&lowercase_vec(&trim_vec(&chars_of(value))))
}

/// A non-empty piece, if any.
pub open spec fn non_empty(s: Option<Seq<char>>) -> Option<Seq<char>> {
    match s {
        Some(v) => if v.len() > 0 { Some(v) } else { None },
        None => None,
    }
}

/// `i`-th piece of `parts`, if it exists.
pub open spec fn nth_piece(parts: Seq<Seq<char>>, i: int) -> Option<Seq<char>> {
    if 0 <= i < parts.len() { Some(parts[i]) } else { None }
}

/// Owner and repository named by a GitHub source reference.
pub open spec fn spec_github_owner_repo(source: Seq<char>) -> (Option<Seq<char>>, Option<Seq<char>>) {
    match after_first(spec_normalize_source_ref(source), "github.com/"@) {
        None => (None, None),
        Some(rest) => {
            let parts = split_char(rest, '/');
            (
                non_empty(nth_piece(parts, 0)),
                match non_empty(nth_piece(parts, 1)) {
                    Some(r) => Some(strip_suffix_all(r, ".git"@)),
                    None => None,
                },
            )
        },
    }
}

/// Parse the GitHub owner and repository out of a source reference.
pub fn parse_github_owner_repo(source: &str) -> (r: (Option<String>, Option<String>))
    ensures
        (opt_view(r.0), opt_view(r.1)) == spec_github_owner_repo(source@),
{
    let n = normalize_source_ref_vec(source);
    match after_first_vec(&n, &chars_of("github.com/")) {
        None => (None, None),
        Some(rest) => {
            let parts = split_char_vec(&rest, '/');
            let owner = if parts.len() > 0 && parts[0].len() > 0 {
                assert(parts@[0]@ == split_char(rest@, '/')[0]);
                Some(string_of(&parts[0]))
            } else {
                proof {
                    if parts@.len() > 0 {
                        assert(parts@[0]@ == split_char(rest@, '/')[0]);
                    }
                }
                None
            };
            let repo = if parts.len() > 1 && parts[1].len() > 0 {
                assert(parts@[1]@ == split_char(rest@, '/')[1]);
                Some(string_of(&strip_suffix_all_vec(&parts[1], &chars_of(".git"))))
            } else {
                proof {
                    if parts@.len() > 1 {
                        assert(parts@[1]@ == split_char(rest@, '/')[1]);
                    }
                }
                None
            };
            (owner, repo)
        },
    }
}


/// What the filesystem shows of a local source path: whether it lies in a
/// Git work tree and, if so, the URL of that tree's `origin` remote.
#[derive(Debug, Clone)]
pub enum LocalGit {
    /// Neither the source reference nor the central path is in a work tree.
    NotInRepository,
    /// The first such path is in a work tree without an `origin` remote.
    NoOrigin,
    /// The first such path is in a work tree whose `origin` has this URL.
    Origin(String),
}

/// Where a managed skill comes from and how it is updated and published.
#[derive(Debug, Clone)]
pub struct InferredOrigin {
    pub origin_kind: String,
    pub origin_role: String,
    pub provider: Option<String>,
    pub remote_url: Option<String>,
    pub owner: Option<String>,
    pub repo: Option<String>,
    pub update_strategy: String,
    pub publish_strategy: String,
    pub reason: String,
}

/// The contents of an [`InferredOrigin`].
pub struct InferredView {
    pub origin_kind: Seq<char>,
    pub origin_role: Seq<char>,
    pub provider: Option<Seq<char>>,
    pub remote_url: Option<Seq<char>>,
    pub owner: Option<Seq<char>>,
    pub repo: Option<Seq<char>>,
    pub update_strategy: Seq<char>,
    pub publish_strategy: Seq<char>,
    pub reason: Seq<char>,
}

impl View for InferredOrigin {
    type V = InferredView;

    open spec fn view(&self) -> InferredView {
        InferredView {
            origin_kind: self.origin_kind@,
            origin_role: self.origin_role@,
            provider: opt_view(self.provider),
            remote_url: opt_view(self.remote_url),
            owner: opt_view(self.owner),
            repo: opt_view(self.repo),
            update_strategy: self.update_strategy@,
            publish_strategy: self.publish_strategy@,
            reason: self.reason@,
        }
    }
}

pub open spec fn iv(
    kind: Seq<char>,
    role: Seq<char>,
    provider: Seq<char>,
    remote: Option<Seq<char>>,
    owner_repo: (Option<Seq<char>>, Option<Seq<char>>),
    update: Seq<char>,
    publish: Seq<char>,
    reason: Seq<char>,
) -> InferredView {
    InferredView {
        origin_kind: kind,
        origin_role: role,
        provider: Some(provider),
        remote_url: remote,
        owner: owner_repo.0,
        repo: owner_repo.1,
        update_strategy: update,
        publish_strategy: publish,
        reason,
    }
}

/// A source counts as official by pattern or by the user's official rules.
pub open spec fn official_by_rules(source: Seq<char>, rules: crate::app_config::OriginRulesView) -> bool {
    spec_is_official_source(source) || spec_matches_repo_rule(source, rules.official_git_repos)
}

/// The origin classification of a skill. A Git source is never classified
/// as the user's own automatically: it stays a plain repository.
pub open spec fn spec_infer_source_origin(
    source_type: Seq<char>,
    source_ref: Option<Seq<char>>,
    central_path: Seq<char>,
    rules: crate::app_config::OriginRulesView,
    local_git: Option<Option<Seq<char>>>,
) -> InferredView {
    let none: (Option<Seq<char>>, Option<Seq<char>>) = (None, None);
    if source_ref is Some && official_by_rules(source_ref.unwrap(), rules) {
        iv("official"@, "official"@, "official"@, source_ref, spec_github_owner_repo(source_ref.unwrap()),
            "git_pull"@, "none"@, "source_ref matched official source rule"@)
    } else if spec_is_official_source(central_path) {
        iv("official"@, "official"@, "official"@, None, none, "local_copy"@, "none"@,
            "central_path matched official source rule"@)
    } else if contains(lowercase(source_type), "git"@) {
        iv("git"@, "repository"@, "git"@, source_ref,
            if source_ref is Some { spec_github_owner_repo(source_ref.unwrap()) } else { none },
            "git_pull"@, "none"@, "source_type is git"@)
    } else if contains(lowercase(source_type), "package"@) {
        iv("package"@, "repository"@, "npm"@, source_ref, none, "package_refresh"@, "none"@,
            "source_type is package"@)
    } else {
        match local_git {
            Some(Some(remote)) => if official_by_rules(remote, rules) {
                iv("official"@, "official"@, "official"@, Some(remote), spec_github_owner_repo(remote),
                    "git_pull"@, "none"@, "git remote matched official source rule"@)
            } else {
                iv("git"@, "repository"@, "git"@, Some(remote), spec_github_owner_repo(remote),
                    "git_pull"@, "none"@, "local source path is inside a git repository"@)
            },
            Some(None) => iv("git"@, "repository"@, "git"@, None, none, "git_pull"@, "none"@,
                "local source path is inside a git repository without origin remote"@),
            None => iv("local"@, "mine"@, "local"@, None, none, "local_copy"@, "none"@,
                "no git or official source metadata found"@),
        }
    }
}

/// A local source that sits in a Git work tree whose `origin` remote is an
/// official repository is classified as official, provided by the official
/// source and following that remote; when the remote is not official it is
/// a plain repository.
pub proof fn law_local_work_tree_follows_its_remote(
    source_type: Seq<char>,
    source_ref: Option<Seq<char>>,
    central_path: Seq<char>,
    rules: crate::app_config::OriginRulesView,
    remote: Seq<char>,
)
    requires
        !(source_ref is Some && official_by_rules(source_ref.unwrap(), rules)),
        !spec_is_official_source(central_path),
        !contains(lowercase(source_type), "git"@),
        !contains(lowercase(source_type), "package"@),
    ensures
        ({
            let o = spec_infer_source_origin(source_type, source_ref, central_path, rules, Some(Some(remote)));
            &&& o.remote_url == Some(remote)
            &&& official_by_rules(remote, rules) ==> {
                &&& o.origin_kind == "official"@
                &&& o.origin_role == "official"@
                &&& o.provider == Some("official"@)
                &&& o.reason == "git remote matched official source rule"@
            }
            &&& !official_by_rules(remote, rules) ==> {
                &&& o.origin_kind == "git"@
                &&& o.origin_role == "repository"@
                &&& o.publish_strategy == "none"@
            }
        }),
{
}

fn make_origin(
    kind: &str,
    role: &str,
    provider: &str,
    remote: Option<String>,
    owner_repo: (Option<String>, Option<String>),
    update: &str,
    publish: &str,
    reason: &str,
) -> (r: InferredOrigin)
    ensures
        r@ == iv(kind@, role@, provider@, opt_view(remote), (opt_view(owner_repo.0), opt_view(owner_repo.1)),
            update@, publish@, reason@),
{
    InferredOrigin {
        origin_kind: crate::text::owned(kind),
        origin_role: crate::text::owned(role),
        provider: Some(crate::text::owned(provider)),
        remote_url: remote,
        owner: owner_repo.0,
        repo: owner_repo.1,
        update_strategy: crate::text::owned(update),
        publish_strategy: crate::text::owned(publish),
        reason: crate::text::owned(reason),
    }
}

fn official_by_rules_exec(source: &str, rules: &OriginRules) -> (r: bool)
    ensures
        r == official_by_rules(source@, rules@),
{
    is_official_source(source) || matches_repo_rule(source, rules.official_git_repos.as_slice())
}

/// Classify where a managed skill comes from. `local_git` is what the
/// filesystem shows of the source reference and central path (checked in
/// that order); it is consulted only for sources that are neither official,
/// Git nor package sources.
pub fn infer_source_origin(
    source_type: &str,
    source_ref: Option<&str>,
    central_path: &str,
    rules: &OriginRules,
    local_git: &LocalGit,
) -> (r: InferredOrigin)
    ensures
        r@ == spec_infer_source_origin(
            source_type@,
            match source_ref { Some(s) => Some(s@), None => None },
            central_path@,
            rules@,
            match local_git {
                LocalGit::NotInRepository => None,
                LocalGit::NoOrigin => Some(None),
                LocalGit::Origin(u) => Some(Some(u@)),
            },
        ),
{
    if let Some(source) = source_ref {
        if official_by_rules_exec(source, rules) {
            return make_origin("official", "official", "official", Some(crate::text::owned(source)),
                parse_github_owner_repo(source), "git_pull", "none", "source_ref matched official source rule");
        }
    }
    if is_official_source(central_path) {
        return make_origin("official", "official", "official", None, (None, None), "local_copy", "none",
            "central_path matched official source rule");
    }
    let lower_type = lowercase_vec(&chars_of(source_type));
    if contains_vec(&lower_type, &chars_of("git")) {
        let owner_repo = match source_ref {
            Some(s) => parse_github_owner_repo(s),
            None => (None, None),
        };
        let remote = match source_ref {
            Some(s) => Some(crate::text::owned(s)),
            None => None,
        };
        return make_origin("git", "repository", "git", remote, owner_repo, "git_pull", "none", "source_type is git");
    }
    if contains_vec(&lower_type, &chars_of("package")) {
        let remote = match source_ref {
            Some(s) => Some(crate::text::owned(s)),
            None => None,
        };
        return make_origin("package", "repository", "npm", remote, (None, None), "package_refresh", "none",
            "source_type is package");
    }
    match local_git {
        LocalGit::Origin(remote) => {
            if official_by_rules_exec(remote.as_str(), rules) {
                make_origin("official", "official", "official", Some(remote.clone()),
                    parse_github_owner_repo(remote.as_str()), "git_pull", "none", "git remote matched official source rule")
            } else {
                make_origin("git", "repository", "git", Some(remote.clone()), parse_github_owner_repo(remote.as_str()),
                    "git_pull", "none", "local source path is inside a git repository")
            }
        },
        LocalGit::NoOrigin => make_origin("git", "repository", "git", None, (None, None), "git_pull", "none",
            "local source path is inside a git repository without origin remote"),
        LocalGit::NotInRepository => make_origin("local", "mine", "local", None, (None, None), "local_copy", "none",
            "no git or official source metadata found"),
    }
}

} // verus!
