//! Auditing and repairing managed skills that were imported as local
//! directories though they come from a Git repository.

use vstd::prelude::*;
use crate::records::origin_opt;
use crate::app_config::OriginRules;
use crate::app_config::opt_view;
use crate::origin::{nth_piece, non_empty};
use crate::explore::{field, json_field, JsonValue, JsonView};
use crate::records::{SkillOriginRecord, SkillRecord};
use crate::text::{
    after_first, after_first_vec, ascii_lower, ascii_lower_vec, chars_of, eq_ignore_ascii_case,
    eq_ignore_ascii_case_vec, extend_vec, has_prefix, owned, replace_all, replace_vec, split_char,
    split_char_vec, starts_with_vec, str_eq, string_of, strip_prefix_all, strip_prefix_all_vec,
    strip_suffix_all, strip_suffix_all_vec, trim, trim_vec, vec_eq,
};

verus! {

/// A Git source found for a skill: the work tree, its `origin` URL, and
/// the branch, subpath and revision where known.
#[derive(Debug, Clone)]
pub struct DetectedGitSource {
    pub repo_root: String,
    pub remote_url: String,
    pub branch: Option<String>,
    pub subpath: Option<String>,
    pub revision: Option<String>,
}

/// A Git source found for a skill and how it was found.
#[derive(Debug, Clone)]
pub struct ProvenanceCandidate {
    pub detected: DetectedGitSource,
    pub reason: String,
}

/// One skill of a repair report.
#[derive(Debug, Clone)]
pub struct SourceRepairItem {
    pub skill_id: String,
    pub name: String,
    pub status: String,
    pub reason: String,
    pub previous_source_type: String,
    pub previous_source_ref: Option<String>,
    pub remote_url: Option<String>,
    pub branch: Option<String>,
    pub subpath: Option<String>,
    pub applied: bool,
}

/// What a repair found and did.
#[derive(Debug, Clone)]
pub struct SourceRepairReport {
    pub dry_run: bool,
    pub scanned: usize,
    pub repairable: usize,
    pub applied: usize,
    pub unresolved: usize,
    pub already_portable: usize,
    pub items: Vec<SourceRepairItem>,
}

/// A relative path with forward slashes; none when empty or `.`.
pub open spec fn spec_normalize_subpath(p: Seq<char>) -> Option<Seq<char>> {
    let v = replace_all(p, "\\"@, "/"@);
    if v.len() == 0 || v == "."@ { None } else { Some(v) }
}

/// Write a relative path with forward slashes; none when empty or `.`.
pub fn normalize_subpath(path: &str) -> (r: Option<String>)
    ensures
        opt_view(r) == spec_normalize_subpath(path@),
{
    let v = replace_vec(&chars_of(path), &chars_of("\\"), &chars_of("/"));
    if v.len() == 0 || vec_eq(&v, &chars_of(".")) {
        None
    } else {
        Some(string_of(&v))
    }
}

/// The owner and repository of a GitHub remote URL.
pub open spec fn spec_remote_owner_repo(url: Seq<char>) -> (Option<Seq<char>>, Option<Seq<char>>) {
    let n = replace_all(
        strip_suffix_all(strip_suffix_all(trim(url), "/"@), ".git"@),
        "git@github.com:"@,
        "github.com/"@,
    );
    match after_first(n, "github.com/"@) {
        None => (None, None),
        Some(path) => {
            let parts = split_char(path, '/');
            (non_empty(nth_piece(parts, 0)), non_empty(nth_piece(parts, 1)))
        },
    }
}

/// The owner and repository of a GitHub remote URL.
pub fn remote_owner_repo(url: &str) -> (r: (Option<String>, Option<String>))
    ensures
        (opt_view(r.0), opt_view(r.1)) == spec_remote_owner_repo(url@),
{
    let t = trim_vec(&chars_of(url));
    let a = strip_suffix_all_vec(&t, &chars_of("/"));
    let b = strip_suffix_all_vec(&a, &chars_of(".git"));
    let n = replace_vec(&b, &chars_of("git@github.com:"), &chars_of("github.com/"));
    match after_first_vec(&n, &chars_of("github.com/")) {
        None => (None, None),
        Some(path) => {
            let parts = split_char_vec(&path, '/');
            let owner = if parts.len() > 0 && parts[0].len() > 0 {
                assert(parts@[0]@ == split_char(path@, '/')[0]);
                Some(string_of(&parts[0]))
            } else {
                proof {
                    if parts@.len() > 0 {
                        assert(parts@[0]@ == split_char(path@, '/')[0]);
                    }
                }
                None
            };
            let repo = if parts.len() > 1 && parts[1].len() > 0 {
                assert(parts@[1]@ == split_char(path@, '/')[1]);
                Some(string_of(&parts[1]))
            } else {
                proof {
                    if parts@.len() > 1 {
                        assert(parts@[1]@ == split_char(path@, '/')[1]);
                    }
                }
                None
            };
            (owner, repo)
        },
    }
}

/// Whether the owner, or the `owner/repo` pair, is one of the user's own
/// (compared ignoring ASCII case).
pub open spec fn spec_is_mine(owner: Option<Seq<char>>, repo: Option<Seq<char>>, rules: OriginRules) -> bool {
    (owner is Some && exists|i: int|
        0 <= i < rules.my_git_owners@.len() && eq_ignore_ascii_case(#[trigger] rules.my_git_owners@[i]@, owner.unwrap()))
        || (owner is Some && repo is Some && exists|i: int|
        0 <= i < rules.my_git_repos@.len() && eq_ignore_ascii_case(
            #[trigger] rules.my_git_repos@[i]@,
            owner.unwrap() + "/"@ + repo.unwrap(),
        ))
}

fn any_equal_ignoring_case(list: &Vec<String>, target: &[char]) -> (r: bool)
    ensures
        r == exists|i: int| 0 <= i < list@.len() && eq_ignore_ascii_case(#[trigger] list@[i]@, target@),
{
    let mut i: usize = 0;
    while i < list.len()
        invariant
            i <= list@.len(),
            forall|k: int| 0 <= k < i ==> !eq_ignore_ascii_case(#[trigger] list@[k]@, target@),
        decreases list.len() - i,
    {
        if eq_ignore_ascii_case_vec(&chars_of(list[i].as_str()), target) {
            return true;
        }
        i = i + 1;
    }
    false
}

/// Whether a remote's owner or repository is one of the user's own.
pub fn is_mine(owner: &Option<String>, repo: &Option<String>, rules: &OriginRules) -> (r: bool)
    ensures
        r == spec_is_mine(opt_view(*owner), opt_view(*repo), *rules),
{
    match owner {
        None => false,
        Some(o) => {
            if any_equal_ignoring_case(&rules.my_git_owners, &chars_of(o.as_str())) {
                return true;
            }
            match repo {
                None => false,
                Some(rp) => {
                    let mut key = chars_of(o.as_str());
                    extend_vec(&mut key, &chars_of("/"));
                    extend_vec(&mut key, &chars_of(rp.as_str()));
                    any_equal_ignoring_case(&rules.my_git_repos, &key)
                },
            }
        },
    }
}

/// A Git URL in comparable form: trimmed, without trailing slashes and
/// `.git`, in ASCII lowercase.
pub open spec fn spec_normalize_git_url(v: Seq<char>) -> Seq<char> {
    ascii_lower(strip_suffix_all(strip_suffix_all(trim(v), "/"@), ".git"@))
}

fn normalize_git_url(v: &str) -> (r: Vec<char>)
    ensures
        r@ == spec_normalize_git_url(v@),
{
    let t = trim_vec(&chars_of(v));
    let a = strip_suffix_all_vec(&t, &chars_of("/"));
    let b = strip_suffix_all_vec(&a, &chars_of(".git"));
    ascii_lower_vec(&b)
}

/// A skill already records this Git source: same URL (compared loosely)
/// and subpath.
pub open spec fn spec_source_matches(skill: SkillRecord, d: DetectedV) -> bool {
    skill.source_type@ == "git"@ && skill.source_ref is Some && spec_normalize_git_url(skill.source_ref.unwrap()@)
        == spec_normalize_git_url(d.remote_url) && opt_view(skill.source_subpath) == d.subpath
}

/// Whether a skill already records this Git source.
pub fn source_matches(skill: &SkillRecord, d: &DetectedGitSource) -> (r: bool)
    ensures
        r == spec_source_matches(*skill, d@),
{
    if !str_eq(skill.source_type.as_str(), "git") {
        return false;
    }
    let same_url = match &skill.source_ref {
        None => false,
        Some(v) => vec_eq(&normalize_git_url(v.as_str()), &normalize_git_url(d.remote_url.as_str())),
    };
    same_url && crate::text::opt_str_eq(&skill.source_subpath, &d.subpath)
}

/// A URL of a remote Git repository (HTTP, SSH or scp-like form).
pub open spec fn spec_is_remote_git_url(v: Seq<char>) -> bool {
    let t = trim(v);
    has_prefix(t, "https://"@) || has_prefix(t, "http://"@) || has_prefix(t, "ssh://"@) || has_prefix(t, "git@"@)
}

/// Whether a value is the URL of a remote Git repository.
pub fn is_remote_git_url(v: &str) -> (r: bool)
    ensures
        r == spec_is_remote_git_url(v@),
{
    let t = trim_vec(&chars_of(v));
    starts_with_vec(&t, &chars_of("https://")) || starts_with_vec(&t, &chars_of("http://")) || starts_with_vec(
        &t,
        &chars_of("ssh://"),
    ) || starts_with_vec(&t, &chars_of("git@"))
}

/// The contents of a detected source that the repair uses.
pub struct DetectedV {
    pub remote_url: Seq<char>,
    pub branch: Option<Seq<char>>,
    pub subpath: Option<Seq<char>>,
    pub revision: Option<Seq<char>>,
}

impl View for DetectedGitSource {
    type V = DetectedV;

    open spec fn view(&self) -> DetectedV {
        DetectedV {
            remote_url: self.remote_url@,
            branch: opt_view(self.branch),
            subpath: opt_view(self.subpath),
            revision: opt_view(self.revision),
        }
    }
}

fn copy_detected(d: &DetectedGitSource) -> (r: DetectedGitSource)
    ensures
        r == *d,
{
    DetectedGitSource {
        repo_root: d.repo_root.clone(),
        remote_url: d.remote_url.clone(),
        branch: crate::text::copy_opt(&d.branch),
        subpath: crate::text::copy_opt(&d.subpath),
        revision: crate::text::copy_opt(&d.revision),
    }
}

/// The source a Git skill already records, when it is a remote URL.
pub open spec fn spec_recorded_candidate(skill: SkillRecord) -> Option<(DetectedV, Seq<char>)> {
    if skill.source_type@ != "git"@ {
        None
    } else {
        match skill.source_ref {
            None => None,
            Some(r) => if !spec_is_remote_git_url(r@) {
                None
            } else {
                Some(
                    (
                        DetectedV {
                            remote_url: trim(r@),
                            branch: None,
                            subpath: opt_view(skill.source_subpath),
                            revision: None,
                        },
                        "从现有 Git 来源重新校验归属规则"@,
                    ),
                )
            },
        }
    }
}

pub open spec fn candidate_view(c: Option<ProvenanceCandidate>) -> Option<(DetectedV, Seq<char>)> {
    match c {
        Some(x) => Some((x.detected@, x.reason@)),
        None => None,
    }
}

/// Re-check the ownership of a Git skill against its recorded remote.
pub fn recorded_git_candidate(skill: &SkillRecord) -> (r: Option<ProvenanceCandidate>)
    ensures
        candidate_view(r) == spec_recorded_candidate(*skill),
{
    if !str_eq(skill.source_type.as_str(), "git") {
        return None;
    }
    let remote = match &skill.source_ref {
        None => return None,
        Some(r) => r,
    };
    if !is_remote_git_url(remote.as_str()) {
        return None;
    }
    Some(ProvenanceCandidate {
        detected: DetectedGitSource {
            repo_root: String::new(),
            remote_url: string_of(&trim_vec(&chars_of(remote.as_str()))),
            branch: None,
            subpath: crate::text::copy_opt(&skill.source_subpath),
            revision: None,
        },
        reason: owned("从现有 Git 来源重新校验归属规则"),
    })
}

/// The candidate an entry of `.agents/.skill-lock.json` gives: GitHub
/// entries with a source URL, at the directory of their skill file.
pub open spec fn spec_lock_candidate(
    source_type: Seq<char>,
    source_url: Seq<char>,
    skill_dir: Option<Seq<char>>,
) -> Option<(DetectedV, Seq<char>)> {
    if source_type != "github"@ || trim(source_url).len() == 0 {
        None
    } else {
        Some(
            (
                DetectedV {
                    remote_url: source_url,
                    branch: None,
                    subpath: match skill_dir {
                        Some(d) => spec_normalize_subpath(d),
                        None => None,
                    },
                    revision: None,
                },
                "由 .agents/.skill-lock.json 的 sourceUrl 与 skillPath 恢复"@,
            ),
        )
    }
}

/// The candidate of a skill-lock entry, given the directory holding its
/// skill file.
pub fn lock_candidate(source_type: &str, source_url: &str, skill_dir: Option<String>) -> (r: Option<
    ProvenanceCandidate,
>)
    ensures
        candidate_view(r) == spec_lock_candidate(source_type@, source_url@, opt_view(skill_dir)),
{
    if !str_eq(source_type, "github") || crate::text::is_blank(source_url) {
        return None;
    }
    let subpath = match &skill_dir {
        Some(d) => normalize_subpath(d.as_str()),
        None => None,
    };
    Some(ProvenanceCandidate {
        detected: DetectedGitSource {
            repo_root: String::new(),
            remote_url: owned(source_url),
            branch: None,
            subpath,
            revision: None,
        },
        reason: owned("由 .agents/.skill-lock.json 的 sourceUrl 与 skillPath 恢复"),
    })
}

/// The skills directory a plugin manifest names, relative to the plugin:
/// without leading `./` and trailing slashes.
pub open spec fn spec_plugin_skills_dir(skills: Seq<char>) -> Seq<char> {
    strip_suffix_all(strip_prefix_all(skills, "./"@), "/"@)
}

/// The skills directory of a plugin manifest.
pub fn plugin_skills_dir(skills: &str) -> (r: String)
    ensures
        r@ == spec_plugin_skills_dir(skills@),
{
    let a = strip_prefix_all_vec(&chars_of(skills), &chars_of("./"));
    string_of(&strip_suffix_all_vec(&a, &chars_of("/")))
}

/// The candidate an installed plugin gives for a skill at `skill_path`
/// inside it.
pub fn plugin_candidate(repository: &str, skill_path: &str) -> (r: ProvenanceCandidate)
    ensures
        r.detected@ == (DetectedV {
            remote_url: repository@,
            branch: None,
            subpath: spec_normalize_subpath(skill_path@),
            revision: None,
        }),
        r.reason@ == "由已安装 Codex 插件的 plugin.json 与 skills 目录恢复"@,
{
    ProvenanceCandidate {
        detected: DetectedGitSource {
            repo_root: String::new(),
            remote_url: owned(repository),
            branch: None,
            subpath: normalize_subpath(skill_path),
            revision: None,
        },
        reason: owned("由已安装 Codex 插件的 plugin.json 与 skills 目录恢复"),
    }
}


pub open spec fn is_quote(c: char) -> bool {
    c == '\'' || c == '"'
}

pub open spec fn drop_quotes_start(s: Seq<char>) -> Seq<char>
    decreases s.len(),
{
    if s.len() > 0 && is_quote(s[0]) { drop_quotes_start(s.drop_first()) } else { s }
}

pub open spec fn drop_quotes_end(s: Seq<char>) -> Seq<char>
    decreases s.len(),
{
    if s.len() > 0 && is_quote(s.last()) { drop_quotes_end(s.drop_last()) } else { s }
}

/// The value of a `name:` line (trimmed), if the line is one.
pub open spec fn name_line_value(line: Seq<char>) -> Option<Seq<char>> {
    if has_prefix(trim(line), "name:"@) { Some(trim(line).skip(5)) } else { None }
}

/// The value of the first `name:` line among the first `n` lines.
pub open spec fn first_name_value(ls: Seq<Seq<char>>, n: int) -> Option<Seq<char>>
    decreases n,
{
    if n <= 0 {
        None
    } else {
        match first_name_value(ls, n - 1) {
            Some(v) => Some(v),
            None => name_line_value(ls[n - 1]),
        }
    }
}

/// The `name:` of a skill file's front matter: the first such line among
/// the first twenty, its value trimmed and unquoted; none when empty.
pub open spec fn spec_frontmatter_name(raw: Seq<char>) -> Option<Seq<char>> {
    let ls = crate::text::lines(raw);
    let n = if ls.len() < 20 { ls.len() as int } else { 20 };
    match first_name_value(ls, n) {
        None => None,
        Some(v) => {
            let w = drop_quotes_end(drop_quotes_start(trim(v)));
            if w.len() == 0 { None } else { Some(w) }
        },
    }
}

fn drop_quotes(v: &Vec<char>) -> (r: Vec<char>)
    ensures
        r@ == drop_quotes_end(drop_quotes_start(v@)),
{
    let mut a: usize = 0;
    assert(v@.skip(0) =~= v@);
    while a < v.len() && (v[a] == '\'' || v[a] == '"')
        invariant
            a <= v@.len(),
            drop_quotes_start(v@) == drop_quotes_start(v@.skip(a as int)),
        decreases v.len() - a,
    {
        assert(v@.skip(a as int).drop_first() =~= v@.skip(a + 1));
        a = a + 1;
    }
    let ghost start = v@.skip(a as int);
    assert(drop_quotes_start(start) == start);
    let mut b: usize = v.len();
    while b > a && (v[b - 1] == '\'' || v[b - 1] == '"')
        invariant
            a <= b <= v@.len(),
            start == v@.skip(a as int),
            drop_quotes_end(start) == drop_quotes_end(v@.subrange(a as int, b as int)),
        decreases b,
    {
        assert(v@.subrange(a as int, b as int).drop_last() =~= v@.subrange(a as int, b - 1));
        b = b - 1;
    }
    assert(v@.subrange(a as int, v@.len() as int) =~= start);
    let r = crate::text::slice_vec(v, a, b);
    assert(drop_quotes_end(r@) == r@);
    r
}

/// The name a skill file declares in its front matter.
pub fn frontmatter_name(raw: &str) -> (r: Option<String>)
    ensures
        opt_view(r) == spec_frontmatter_name(raw@),
{
    let ls = crate::text::lines_vec(&chars_of(raw));
    let ghost lv = crate::text::lines(raw@);
    let n: usize = if ls.len() < 20 { ls.len() } else { 20 };
    let mut i: usize = 0;
    while i < n
        invariant
            i <= n,
            lv == crate::text::lines(raw@),
            n == (if lv.len() < 20 { lv.len() as int } else { 20 }),
            ls@.len() == lv.len(),
            forall|k: int| 0 <= k < ls@.len() ==> #[trigger] ls@[k]@ == lv[k],
            first_name_value(lv, i as int) is None,
        decreases n - i,
    {
        let t = trim_vec(&ls[i]);
        assert(ls@[i as int]@ == lv[i as int]);
        if starts_with_vec(&t, &chars_of("name:")) {
            proof {
                reveal_strlit("name:");
                lemma_first_name_stays(lv, i + 1, n as int);
            }
            let rest = crate::text::slice_vec(&t, 5, t.len());
            assert(rest@ =~= trim(lv[i as int]).skip(5));
            assert(first_name_value(lv, i + 1) == Some(rest@));
            let w = drop_quotes(&trim_vec(&rest));
            if w.len() == 0 {
                return None;
            }
            return Some(string_of(&w));
        }
        i = i + 1;
    }
    None
}

proof fn lemma_first_name_stays(ls: Seq<Seq<char>>, n: int, m: int)
    requires
        n <= m,
        first_name_value(ls, n) is Some,
    ensures
        first_name_value(ls, m) == first_name_value(ls, n),
    decreases m - n,
{
    if m > n {
        lemma_first_name_stays(ls, n, m - 1);
    }
}

/// The origin a repair records for a skill: a manual override keeps its
/// classification and only follows the remote, branch and subpath;
/// otherwise the remote is classified as the user's own or as a plain
/// repository. A branch not detected is kept from the previous origin when
/// that names the same remote and subpath.
pub open spec fn spec_origin_record(prev: Option<crate::records::OriginV>, skill_id: Seq<char>, d: DetectedV, rules: OriginRules, now: i64) -> crate::records::OriginV {
    let same_remote = prev is Some && prev.unwrap().remote_url == Some(d.remote_url) && prev.unwrap().subpath == d.subpath;
    let branch = if d.branch is Some { d.branch } else if same_remote { prev.unwrap().branch } else { None };
    if prev is Some && prev.unwrap().manual_override {
        crate::records::OriginV { remote_url: Some(d.remote_url), branch, subpath: d.subpath, updated_at: now, ..prev.unwrap() }
    } else {
        let (owner, repo) = spec_remote_owner_repo(d.remote_url);
        let mine = spec_is_mine(owner, repo, rules);
        crate::records::OriginV {
            skill_id,
            origin_kind: "git"@,
            origin_role: if mine { "mine"@ } else { "repository"@ },
            provider: Some("git"@),
            remote_url: Some(d.remote_url),
            owner,
            repo,
            branch,
            subpath: d.subpath,
            update_strategy: "git_pull"@,
            publish_strategy: if mine { "git_push"@ } else { "none"@ },
            manual_override: false,
            reason: Some("repaired and classified from Git remote"@),
            updated_at: now,
        }
    }
}

/// The origin record a repair writes for a skill, at time `now`.
pub fn detected_origin_record(
    previous: &Option<SkillOriginRecord>,
    skill_id: &str,
    d: &DetectedGitSource,
    rules: &OriginRules,
    now: i64,
) -> (r: SkillOriginRecord)
    ensures
        r@ == spec_origin_record(origin_opt(*previous), skill_id@, d@, *rules, now),
{
    let same_remote = match previous {
        Some(p) => crate::text::opt_str_eq(&p.remote_url, &Some(d.remote_url.clone())) && crate::text::opt_str_eq(
            &p.subpath,
            &d.subpath,
        ),
        None => false,
    };
    let branch = match &d.branch {
        Some(b) => Some(b.clone()),
        None => if same_remote {
            match previous {
                Some(p) => crate::text::copy_opt(&p.branch),
                None => None,
            }
        } else {
            None
        },
    };
    match previous {
        Some(p) => {
            if p.manual_override {
                return SkillOriginRecord {
                    skill_id: p.skill_id.clone(),
                    origin_kind: p.origin_kind.clone(),
                    origin_role: p.origin_role.clone(),
                    provider: crate::text::copy_opt(&p.provider),
                    remote_url: Some(d.remote_url.clone()),
                    owner: crate::text::copy_opt(&p.owner),
                    repo: crate::text::copy_opt(&p.repo),
                    branch,
                    subpath: crate::text::copy_opt(&d.subpath),
                    update_strategy: p.update_strategy.clone(),
                    publish_strategy: p.publish_strategy.clone(),
                    manual_override: p.manual_override,
                    reason: crate::text::copy_opt(&p.reason),
                    updated_at: now,
                };
            }
        },
        None => {},
    }
    let (owner, repo) = remote_owner_repo(d.remote_url.as_str());
    let mine = is_mine(&owner, &repo, rules);
    SkillOriginRecord {
        skill_id: owned(skill_id),
        origin_kind: owned("git"),
        origin_role: owned(if mine { "mine" } else { "repository" }),
        provider: Some(owned("git")),
        remote_url: Some(d.remote_url.clone()),
        owner,
        repo,
        branch,
        subpath: crate::text::copy_opt(&d.subpath),
        update_strategy: owned("git_pull"),
        publish_strategy: owned(if mine { "git_push" } else { "none" }),
        manual_override: false,
        reason: Some(owned("repaired and classified from Git remote")),
        updated_at: now,
    }
}

/// Whether the stored origin differs from the expected one in what the
/// repair decides (the reason and time stamp aside).
pub open spec fn spec_needs_repair(current: Option<crate::records::OriginV>, expected: crate::records::OriginV) -> bool {
    match current {
        None => true,
        Some(c) => c.origin_kind != expected.origin_kind || c.origin_role != expected.origin_role || c.remote_url
            != expected.remote_url || c.owner != expected.owner || c.repo != expected.repo || c.branch
            != expected.branch || c.subpath != expected.subpath || c.update_strategy != expected.update_strategy
            || c.publish_strategy != expected.publish_strategy || c.manual_override != expected.manual_override,
    }
}

/// Whether the stored origin must be rewritten to the expected one.
pub fn origin_needs_repair(current: &Option<SkillOriginRecord>, expected: &SkillOriginRecord) -> (r: bool)
    ensures
        r == spec_needs_repair(origin_opt(*current), expected@),
{
    match current {
        None => true,
        Some(c) => !str_eq(c.origin_kind.as_str(), expected.origin_kind.as_str()) || !str_eq(
            c.origin_role.as_str(),
            expected.origin_role.as_str(),
        ) || !crate::text::opt_str_eq(&c.remote_url, &expected.remote_url) || !crate::text::opt_str_eq(
            &c.owner,
            &expected.owner,
        ) || !crate::text::opt_str_eq(&c.repo, &expected.repo) || !crate::text::opt_str_eq(&c.branch, &expected.branch)
            || !crate::text::opt_str_eq(&c.subpath, &expected.subpath) || !str_eq(
            c.update_strategy.as_str(),
            expected.update_strategy.as_str(),
        ) || !str_eq(c.publish_strategy.as_str(), expected.publish_strategy.as_str())
            || c.manual_override != expected.manual_override,
    }
}


/// The contents of a [`SourceRepairItem`].
pub struct ItemV {
    pub skill_id: Seq<char>,
    pub name: Seq<char>,
    pub status: Seq<char>,
    pub reason: Seq<char>,
    pub previous_source_type: Seq<char>,
    pub previous_source_ref: Option<Seq<char>>,
    pub remote_url: Option<Seq<char>>,
    pub branch: Option<Seq<char>>,
    pub subpath: Option<Seq<char>>,
    pub applied: bool,
}

impl View for SourceRepairItem {
    type V = ItemV;

    open spec fn view(&self) -> ItemV {
        ItemV {
            skill_id: self.skill_id@,
            name: self.name@,
            status: self.status@,
            reason: self.reason@,
            previous_source_type: self.previous_source_type@,
            previous_source_ref: opt_view(self.previous_source_ref),
            remote_url: opt_view(self.remote_url),
            branch: opt_view(self.branch),
            subpath: opt_view(self.subpath),
            applied: self.applied,
        }
    }
}

pub open spec fn item_views(v: Seq<SourceRepairItem>) -> Seq<ItemV> {
    v.map_values(|x: SourceRepairItem| x@)
}

/// The item of a skill whose Git source could not be established.
pub open spec fn spec_unresolved_item(skill: SkillRecord, reason: Seq<char>) -> ItemV {
    ItemV {
        skill_id: skill.id@,
        name: skill.name@,
        status: "unresolved"@,
        reason,
        previous_source_type: skill.source_type@,
        previous_source_ref: opt_view(skill.source_ref),
        remote_url: None,
        branch: None,
        subpath: None,
        applied: false,
    }
}

/// The report item of a skill whose source could not be established.
pub fn unresolved_item(skill: &SkillRecord, reason: &str) -> (r: SourceRepairItem)
    ensures
        r@ == spec_unresolved_item(*skill, reason@),
{
    SourceRepairItem {
        skill_id: skill.id.clone(),
        name: skill.name.clone(),
        status: owned("unresolved"),
        reason: owned(reason),
        previous_source_type: skill.source_type.clone(),
        previous_source_ref: crate::text::copy_opt(&skill.source_ref),
        remote_url: None,
        branch: None,
        subpath: None,
        applied: false,
    }
}

/// What the repair knows of one skill besides its record: its stored
/// origin, the candidates from the skill lock and from installed plugins,
/// the work tree its source path lies in (looked for only when nothing
/// else gave a candidate), and whether that path is a symbolic link or
/// exists at all.
#[derive(Debug, Clone)]
pub struct RepairInput {
    pub current_origin: Option<SkillOriginRecord>,
    pub lock: Option<ProvenanceCandidate>,
    pub plugin: Option<ProvenanceCandidate>,
    pub path_detected: Option<DetectedGitSource>,
    pub path_is_symlink: bool,
    pub path_exists: bool,
}

/// Where a skill's source can be recovered from, and how: its recorded
/// Git remote, the skill lock, an installed plugin, or the work tree its
/// source path lies in.
pub open spec fn spec_candidate(skill: SkillRecord, input: RepairInput) -> Option<(DetectedV, Seq<char>)> {
    match spec_recorded_candidate(skill) {
        Some(c) => Some(c),
        None => match candidate_view(input.lock) {
            Some(c) => Some(c),
            None => match candidate_view(input.plugin) {
                Some(c) => Some(c),
                None => if skill.source_ref is Some {
                    match input.path_detected {
                        Some(d) => Some((d@, "sourceRef 位于带 origin 的 Git 工作树中"@)),
                        None => None,
                    }
                } else {
                    None
                },
            },
        },
    }
}

/// Whether the work tree of a skill's source path is worth looking for:
/// nothing else gave a candidate and the skill has a source path.
pub fn wants_path_detection(skill: &SkillRecord, lock: &Option<ProvenanceCandidate>, plugin: &Option<ProvenanceCandidate>) -> (r: bool)
    ensures
        r == (!(skill.source_type@ == "package"@) && spec_recorded_candidate(*skill) is None && lock is None
            && plugin is None && skill.source_ref is Some),
{
    !str_eq(skill.source_type.as_str(), "package") && recorded_git_candidate(skill).is_none() && lock.is_none()
        && plugin.is_none() && skill.source_ref.is_some()
}

/// Why a skill's source could not be established.
pub open spec fn spec_unresolved_reason(skill: SkillRecord, input: RepairInput) -> Seq<char> {
    if skill.source_type@ == "git"@ {
        "Git Skill 缺少可验证的远程来源"@
    } else if skill.source_ref is Some && input.path_is_symlink {
        "sourceRef 是指向中央副本的符号链接，副本不包含 .git"@
    } else if skill.source_ref is Some && input.path_exists {
        "sourceRef 不在带 origin 的 Git 工作树中"@
    } else if skill.source_ref is None {
        "本地 Skill 没有 sourceRef"@
    } else {
        "sourceRef 不存在"@
    }
}

/// The report item of one skill: none for package skills and for skills
/// whose source and origin are already right.
pub open spec fn spec_item(skill: SkillRecord, input: RepairInput, rules: OriginRules, apply: bool, now: i64) -> Option<ItemV> {
    if skill.source_type@ == "package"@ {
        None
    } else {
        match spec_candidate(skill, input) {
            Some((d, reason)) => {
                let expected = spec_origin_record(origin_opt(input.current_origin), skill.id@, d, rules, now);
                if spec_source_matches(skill, d) && !spec_needs_repair(origin_opt(input.current_origin), expected) {
                    None
                } else {
                    Some(
                        ItemV {
                            skill_id: skill.id@,
                            name: skill.name@,
                            status: "repairable"@,
                            reason,
                            previous_source_type: skill.source_type@,
                            previous_source_ref: opt_view(skill.source_ref),
                            remote_url: Some(d.remote_url),
                            branch: d.branch,
                            subpath: d.subpath,
                            applied: apply,
                        },
                    )
                }
            },
            None => Some(spec_unresolved_item(skill, spec_unresolved_reason(skill, input))),
        }
    }
}

/// A Git skill whose recorded reference, trimmed, is a remote URL (`https://`,
/// `http://`, `ssh://` or the scp-like `git@host:path`) is re-checked against
/// that remote whatever else is known of it: the candidate is the trimmed
/// reference with the recorded subpath, and its report item, if any, is
/// repairable with that remote, never unresolved.
pub proof fn law_recorded_remote_is_rechecked(
    skill: SkillRecord,
    input: RepairInput,
    rules: OriginRules,
    apply: bool,
    now: i64,
)
    requires
        skill.source_type@ == "git"@,
        skill.source_ref is Some,
        has_prefix(trim(skill.source_ref.unwrap()@), "https://"@) || has_prefix(
            trim(skill.source_ref.unwrap()@),
            "http://"@,
        ) || has_prefix(trim(skill.source_ref.unwrap()@), "ssh://"@) || has_prefix(
            trim(skill.source_ref.unwrap()@),
            "git@"@,
        ),
    ensures
        spec_candidate(skill, input) == Some(
            (
                DetectedV {
                    remote_url: trim(skill.source_ref.unwrap()@),
                    branch: None,
                    subpath: opt_view(skill.source_subpath),
                    revision: None,
                },
                "从现有 Git 来源重新校验归属规则"@,
            ),
        ),
        spec_item(skill, input, rules, apply, now) matches Some(it) ==> it.status == "repairable"@
            && it.remote_url == Some(trim(skill.source_ref.unwrap()@)),
{
    assert(skill.source_type@ != "package"@) by {
        reveal_strlit("git");
        reveal_strlit("package");
        assert("git"@.len() == 3);
        assert("package"@.len() == 7);
    }
}

/// A skill record moved over to its Git source: type `git`, the remote as
/// its reference, the detected subpath, and the detected revision (or the
/// recorded one when the source did not change).
pub open spec fn spec_patched(skill: SkillRecord, d: DetectedV) -> crate::records::RecordV {
    crate::records::RecordV {
        source_type: "git"@,
        source_ref: Some(d.remote_url),
        source_subpath: d.subpath,
        source_revision: if d.revision is Some {
            d.revision
        } else if spec_source_matches(skill, d) {
            opt_view(skill.source_revision)
        } else {
            None
        },
        ..skill@
    }
}

/// The record of a skill moved over to a detected Git source.
pub fn patched_record(skill: &SkillRecord, d: &DetectedGitSource) -> (r: SkillRecord)
    ensures
        r@ == spec_patched(*skill, d@),
{
    let same = source_matches(skill, d);
    let revision = match &d.revision {
        Some(v) => Some(v.clone()),
        None => if same { crate::text::copy_opt(&skill.source_revision) } else { None },
    };
    SkillRecord {
        id: skill.id.clone(),
        name: skill.name.clone(),
        description: crate::text::copy_opt(&skill.description),
        source_type: owned("git"),
        source_ref: Some(d.remote_url.clone()),
        source_subpath: crate::text::copy_opt(&d.subpath),
        source_revision: revision,
        central_path: skill.central_path.clone(),
        content_hash: crate::text::copy_opt(&skill.content_hash),
        created_at: skill.created_at,
        updated_at: skill.updated_at,
        last_sync_at: skill.last_sync_at,
        last_seen_at: skill.last_seen_at,
        status: skill.status.clone(),
    }
}

/// What applying the repair of one skill writes: its patched record and
/// its origin; only when applying and the skill needs a repair.
pub open spec fn spec_update(skill: SkillRecord, input: RepairInput, rules: OriginRules, apply: bool, now: i64) -> Option<
    (crate::records::RecordV, crate::records::OriginV),
> {
    match spec_item(skill, input, rules, apply, now) {
        Some(item) => if apply && item.status == "repairable"@ {
            match spec_candidate(skill, input) {
                Some((d, _)) => Some(
                    (spec_patched(skill, d), spec_origin_record(origin_opt(input.current_origin), skill.id@, d, rules, now)),
                ),
                None => None,
            }
        } else {
            None
        },
        None => None,
    }
}

/// The report items of the first `n` skills.
pub open spec fn items_of(skills: Seq<SkillRecord>, inputs: Seq<RepairInput>, rules: OriginRules, apply: bool, now: i64, n: int) -> Seq<ItemV>
    decreases n,
{
    if n <= 0 {
        Seq::empty()
    } else {
        let prev = items_of(skills, inputs, rules, apply, now, n - 1);
        match spec_item(skills[n - 1], inputs[n - 1], rules, apply, now) {
            Some(i) => prev.push(i),
            None => prev,
        }
    }
}

/// The writes of the first `n` skills.
pub open spec fn updates_of(skills: Seq<SkillRecord>, inputs: Seq<RepairInput>, rules: OriginRules, apply: bool, now: i64, n: int) -> Seq<
    (crate::records::RecordV, crate::records::OriginV),
>
    decreases n,
{
    if n <= 0 {
        Seq::empty()
    } else {
        let prev = updates_of(skills, inputs, rules, apply, now, n - 1);
        match spec_update(skills[n - 1], inputs[n - 1], rules, apply, now) {
            Some(u) => prev.push(u),
            None => prev,
        }
    }
}

/// How many items have the status.
pub open spec fn count_status(items: Seq<ItemV>, status: Seq<char>) -> nat
    decreases items.len(),
{
    if items.len() == 0 {
        0
    } else {
        count_status(items.drop_last(), status) + if items.last().status == status { 1nat } else { 0nat }
    }
}

pub open spec fn update_views(v: Seq<(SkillRecord, SkillOriginRecord)>) -> Seq<(crate::records::RecordV, crate::records::OriginV)> {
    v.map_values(|u: (SkillRecord, SkillOriginRecord)| (u.0@, u.1@))
}

fn candidate_of(skill: &SkillRecord, input: &RepairInput) -> (r: Option<ProvenanceCandidate>)
    ensures
        candidate_view(r) == spec_candidate(*skill, *input),
{
    match recorded_git_candidate(skill) {
        Some(c) => Some(c),
        None => match &input.lock {
            Some(c) => Some(ProvenanceCandidate { detected: copy_detected(&c.detected), reason: c.reason.clone() }),
            None => match &input.plugin {
                Some(c) => Some(ProvenanceCandidate { detected: copy_detected(&c.detected), reason: c.reason.clone() }),
                None => if skill.source_ref.is_some() {
                    match &input.path_detected {
                        Some(d) => Some(ProvenanceCandidate {
                            detected: copy_detected(d),
                            reason: owned("sourceRef 位于带 origin 的 Git 工作树中"),
                        }),
                        None => None,
                    }
                } else {
                    None
                },
            },
        },
    }
}

fn unresolved_reason(skill: &SkillRecord, input: &RepairInput) -> (r: &'static str)
    ensures
        r@ == spec_unresolved_reason(*skill, *input),
{
    if str_eq(skill.source_type.as_str(), "git") {
        "Git Skill 缺少可验证的远程来源"
    } else if skill.source_ref.is_some() && input.path_is_symlink {
        "sourceRef 是指向中央副本的符号链接，副本不包含 .git"
    } else if skill.source_ref.is_some() && input.path_exists {
        "sourceRef 不在带 origin 的 Git 工作树中"
    } else if skill.source_ref.is_none() {
        "本地 Skill 没有 sourceRef"
    } else {
        "sourceRef 不存在"
    }
}

/// Repair one skill: its report item and, when applying, what to write.
fn repair_one(skill: &SkillRecord, input: &RepairInput, rules: &OriginRules, apply: bool, now: i64) -> (r: (
    Option<SourceRepairItem>,
    Option<(SkillRecord, SkillOriginRecord)>,
))
    ensures
        match r.0 {
            Some(i) => spec_item(*skill, *input, *rules, apply, now) == Some(i@),
            None => spec_item(*skill, *input, *rules, apply, now) is None,
        },
        match r.1 {
            Some(u) => spec_update(*skill, *input, *rules, apply, now) == Some((u.0@, u.1@)),
            None => spec_update(*skill, *input, *rules, apply, now) is None,
        },
{
    if str_eq(skill.source_type.as_str(), "package") {
        return (None, None);
    }
    match candidate_of(skill, input) {
        Some(c) => {
            let expected = detected_origin_record(&input.current_origin, skill.id.as_str(), &c.detected, rules, now);
            let needs = origin_needs_repair(&input.current_origin, &expected);
            if source_matches(skill, &c.detected) && !needs {
                return (None, None);
            }
            let item = SourceRepairItem {
                skill_id: skill.id.clone(),
                name: skill.name.clone(),
                status: owned("repairable"),
                reason: c.reason.clone(),
                previous_source_type: skill.source_type.clone(),
                previous_source_ref: crate::text::copy_opt(&skill.source_ref),
                remote_url: Some(c.detected.remote_url.clone()),
                branch: crate::text::copy_opt(&c.detected.branch),
                subpath: crate::text::copy_opt(&c.detected.subpath),
                applied: apply,
            };
            let update = if apply { Some((patched_record(skill, &c.detected), expected)) } else { None };
            (Some(item), update)
        },
        None => {
            proof {
                reveal_strlit("unresolved");
                reveal_strlit("repairable");
                assert("unresolved"@[0] != "repairable"@[0]);
            }
            (Some(unresolved_item(skill, unresolved_reason(skill, input))), None)
        },
    }
}

/// The report a repair of `skills` gives.
pub open spec fn spec_report(skills: Seq<SkillRecord>, inputs: Seq<RepairInput>, rules: OriginRules, apply: bool, now: i64) -> (
    bool,
    nat,
    nat,
    nat,
    nat,
    nat,
    Seq<ItemV>,
) {
    let items = items_of(skills, inputs, rules, apply, now, skills.len() as int);
    let repairable = count_status(items, "repairable"@);
    let unresolved = count_status(items, "unresolved"@);
    (
        !apply,
        skills.len(),
        repairable,
        if apply { repairable } else { 0 },
        unresolved,
        if skills.len() >= repairable + unresolved { (skills.len() - repairable - unresolved) as nat } else { 0 },
        items,
    )
}

pub open spec fn report_view(r: SourceRepairReport) -> (bool, nat, nat, nat, nat, nat, Seq<ItemV>) {
    (
        r.dry_run,
        r.scanned as nat,
        r.repairable as nat,
        r.applied as nat,
        r.unresolved as nat,
        r.already_portable as nat,
        item_views(r.items@),
    )
}

proof fn lemma_items_bounded(skills: Seq<SkillRecord>, inputs: Seq<RepairInput>, rules: OriginRules, apply: bool, now: i64, n: int)
    requires
        0 <= n,
    ensures
        items_of(skills, inputs, rules, apply, now, n).len() <= n,
        count_status(items_of(skills, inputs, rules, apply, now, n), "repairable"@) + count_status(
            items_of(skills, inputs, rules, apply, now, n),
            "unresolved"@,
        ) <= items_of(skills, inputs, rules, apply, now, n).len(),
    decreases n,
{
    if n > 0 {
        lemma_items_bounded(skills, inputs, rules, apply, now, n - 1);
        let prev = items_of(skills, inputs, rules, apply, now, n - 1);
        match spec_item(skills[n - 1], inputs[n - 1], rules, apply, now) {
            Some(i) => {
                assert(prev.push(i).drop_last() =~= prev);
                reveal_strlit("unresolved");
                reveal_strlit("repairable");
                assert("unresolved"@[0] != "repairable"@[0]);
            },
            None => {},
        }
    }
}

/// Audit the managed skills and, with `apply`, repair them: each skill
/// (package skills aside) whose Git source can be recovered but is not
/// recorded, or whose origin is out of date, is repairable; a skill whose
/// source cannot be recovered is unresolved. Returns the report and, when
/// applying, the records and origins to write.
pub fn repair_skill_sources(
    skills: &Vec<SkillRecord>,
    inputs: &Vec<RepairInput>,
    rules: &OriginRules,
    apply: bool,
    now: i64,
) -> (r: (SourceRepairReport, Vec<(SkillRecord, SkillOriginRecord)>))
    requires
        inputs@.len() == skills@.len(),
    ensures
        report_view(r.0) == spec_report(skills@, inputs@, *rules, apply, now),
        update_views(r.1@) == updates_of(skills@, inputs@, *rules, apply, now, skills@.len() as int),
{
    let ghost ss = skills@;
    let ghost ins = inputs@;
    let mut items: Vec<SourceRepairItem> = Vec::new();
    let mut updates: Vec<(SkillRecord, SkillOriginRecord)> = Vec::new();
    let mut repairable: usize = 0;
    let mut unresolved: usize = 0;
    let mut i: usize = 0;
    while i < skills.len()
        invariant
            i <= ss.len(),
            ss == skills@,
            ins == inputs@,
            ins.len() == ss.len(),
            item_views(items@) == items_of(ss, ins, *rules, apply, now, i as int),
            update_views(updates@) == updates_of(ss, ins, *rules, apply, now, i as int),
            repairable == count_status(item_views(items@), "repairable"@),
            unresolved == count_status(item_views(items@), "unresolved"@),
            items@.len() <= i,
            repairable + unresolved <= items@.len(),
        decreases skills.len() - i,
    {
        let (item, update) = repair_one(&skills[i], &inputs[i], rules, apply, now);
        let ghost iv0 = item_views(items@);
        let ghost uv0 = update_views(updates@);
        match item {
            Some(it) => {
                let is_rep = str_eq(it.status.as_str(), "repairable");
                let is_unres = str_eq(it.status.as_str(), "unresolved");
                proof {
                    reveal_strlit("unresolved");
                    reveal_strlit("repairable");
                    assert("unresolved"@[0] != "repairable"@[0]);
                }
                let ghost itv = it@;
                items.push(it);
                assert(item_views(items@) =~= iv0.push(itv));
                assert(item_views(items@).drop_last() =~= iv0);
                if is_rep {
                    repairable = repairable + 1;
                }
                if is_unres {
                    unresolved = unresolved + 1;
                }
            },
            None => {},
        }
        match update {
            Some(u) => {
                let ghost uv = (u.0@, u.1@);
                updates.push(u);
                assert(update_views(updates@) =~= uv0.push(uv));
            },
            None => {},
        }
        i = i + 1;
    }
    let portable: usize = if skills.len() >= repairable + unresolved { skills.len() - repairable - unresolved } else { 0 };
    let report = SourceRepairReport {
        dry_run: !apply,
        scanned: skills.len(),
        repairable,
        applied: if apply { repairable } else { 0 },
        unresolved,
        already_portable: portable,
        items,
    };
    (report, updates)
}


/// Why an explicit repair was refused.
#[derive(Debug, Clone)]
pub enum RepairError {
    /// No managed skill has this id or name.
    SkillNotFound { key: String },
    /// The remote URL is blank.
    EmptyRemote,
    /// The remote has no skill file at the subpath, or one of another name.
    SourceMismatch { name: String },
}

pub open spec fn spec_repair_error_message(e: RepairError) -> Seq<char> {
    match e {
        RepairError::SkillNotFound { key } => "Skill 不存在: "@ + key@,
        RepairError::EmptyRemote => "Git remote URL 不能为空"@,
        RepairError::SourceMismatch { name } => "SOURCE_MISMATCH|远端子路径不存在 SKILL.md，或名称与 "@ + name@ + " 不匹配"@,
    }
}

impl RepairError {
    /// The user-facing message for this error.
    pub fn message(&self) -> (r: String)
        ensures
            r@ == spec_repair_error_message(*self),
    {
        match self {
            RepairError::SkillNotFound { key } => crate::text::concat_str("Skill 不存在: ", key.as_str()),
            RepairError::EmptyRemote => owned("Git remote URL 不能为空"),
            RepairError::SourceMismatch { name } => {
                let mut v = chars_of("SOURCE_MISMATCH|远端子路径不存在 SKILL.md，或名称与 ");
                extend_vec(&mut v, &chars_of(name.as_str()));
                extend_vec(&mut v, &chars_of(" 不匹配"));
                string_of(&v)
            },
        }
    }
}

/// The skill a user names by id or by name (ignoring ASCII case): the
/// first that matches.
pub open spec fn spec_find_skill(skills: Seq<SkillRecord>, key: Seq<char>, n: int) -> Option<int>
    decreases n,
{
    if n <= 0 {
        None
    } else {
        match spec_find_skill(skills, key, n - 1) {
            Some(i) => Some(i),
            None => if skills[n - 1].id@ == key || eq_ignore_ascii_case(skills[n - 1].name@, key) {
                Some(n - 1)
            } else {
                None
            },
        }
    }
}

/// The subpath a user gives, trimmed; none when blank or `.`.
pub open spec fn spec_explicit_subpath(subpath: Option<Seq<char>>) -> Option<Seq<char>> {
    match subpath {
        Some(p) => if trim(p).len() == 0 || trim(p) == "."@ { None } else { Some(trim(p)) },
        None => None,
    }
}

/// What an explicit repair starts from: the index of the named skill, the
/// Git source the user gave, and whether the skill already records it.
pub fn explicit_repair_request(
    skills: &Vec<SkillRecord>,
    name_or_id: &str,
    remote_url: &str,
    subpath: Option<&str>,
) -> (r: Result<(usize, DetectedGitSource, bool), RepairError>)
    ensures
        match r {
            Ok((i, d, m)) => spec_find_skill(skills@, name_or_id@, skills@.len() as int) == Some(i as int)
                && trim(remote_url@).len() > 0 && d@ == (DetectedV {
                remote_url: trim(remote_url@),
                branch: None,
                subpath: spec_explicit_subpath(
                    match subpath {
                        Some(p) => Some(p@),
                        None => None,
                    },
                ),
                revision: None,
            }) && i < skills@.len() && m == spec_source_matches(skills@[i as int], d@),
            Err(RepairError::SkillNotFound { key }) => spec_find_skill(skills@, name_or_id@, skills@.len() as int) is None
                && key@ == name_or_id@,
            Err(RepairError::EmptyRemote) => spec_find_skill(skills@, name_or_id@, skills@.len() as int) is Some
                && trim(remote_url@).len() == 0,
            Err(RepairError::SourceMismatch { .. }) => false,
        },
{
    let idx = match find_skill(skills, name_or_id) {
        None => return Err(RepairError::SkillNotFound { key: owned(name_or_id) }),
        Some(j) => j,
    };
    let remote = trim_vec(&chars_of(remote_url));
    if remote.len() == 0 {
        return Err(RepairError::EmptyRemote);
    }
    let sub = match subpath {
        Some(p) => {
            let t = trim_vec(&chars_of(p));
            if t.len() == 0 || vec_eq(&t, &chars_of(".")) {
                None
            } else {
                Some(string_of(&t))
            }
        },
        None => None,
    };
    let detected = DetectedGitSource {
        repo_root: String::new(),
        remote_url: string_of(&remote),
        branch: None,
        subpath: sub,
        revision: None,
    };
    let matches = source_matches(&skills[idx], &detected);
    Ok((idx, detected, matches))
}

fn find_skill(skills: &Vec<SkillRecord>, key: &str) -> (r: Option<usize>)
    ensures
        match r {
            Some(j) => spec_find_skill(skills@, key@, skills@.len() as int) == Some(j as int) && j < skills@.len(),
            None => spec_find_skill(skills@, key@, skills@.len() as int) is None,
        },
{
    let mut i: usize = 0;
    while i < skills.len()
        invariant
            i <= skills@.len(),
            spec_find_skill(skills@, key@, i as int) is None,
        decreases skills.len() - i,
    {
        if str_eq(skills[i].id.as_str(), key) || eq_ignore_ascii_case_vec(&chars_of(skills[i].name.as_str()), &chars_of(key)) {
            proof {
                lemma_find_stays(skills@, key@, i + 1, skills@.len() as int);
            }
            return Some(i);
        }
        i = i + 1;
    }
    None
}

proof fn lemma_find_stays(skills: Seq<SkillRecord>, key: Seq<char>, n: int, m: int)
    requires
        n <= m,
        spec_find_skill(skills, key, n) is Some,
    ensures
        spec_find_skill(skills, key, m) == spec_find_skill(skills, key, n),
    decreases m - n,
{
    if m > n {
        lemma_find_stays(skills, key, n, m - 1);
    }
}

/// Whether a checked-out remote holds the skill: a skill file at the
/// subpath, in a folder named like the skill or declaring its name
/// (compared ignoring ASCII case).
pub open spec fn spec_explicit_source_valid(
    skill_md_is_file: bool,
    folder: Option<Seq<char>>,
    declared: Option<Seq<char>>,
    skill_name: Seq<char>,
) -> bool {
    skill_md_is_file && ((folder is Some && eq_ignore_ascii_case(folder.unwrap(), skill_name)) || (declared is Some
        && eq_ignore_ascii_case(declared.unwrap(), skill_name)))
}

/// Whether a checked-out remote holds the skill named `skill_name`.
pub fn explicit_source_valid(
    skill_md_is_file: bool,
    folder: Option<String>,
    declared: Option<String>,
    skill_name: &str,
) -> (r: bool)
    ensures
        r == spec_explicit_source_valid(skill_md_is_file, opt_view(folder), opt_view(declared), skill_name@),
{
    if !skill_md_is_file {
        return false;
    }
    let by_folder = match &folder {
        Some(f) => eq_ignore_ascii_case_vec(&chars_of(f.as_str()), &chars_of(skill_name)),
        None => false,
    };
    let by_name = match &declared {
        Some(d) => eq_ignore_ascii_case_vec(&chars_of(d.as_str()), &chars_of(skill_name)),
        None => false,
    };
    by_folder || by_name
}

/// The report of an explicit repair of `skill` to the source the user
/// gave (`matches`: the skill already records it).
pub open spec fn spec_explicit_report(
    skill: SkillRecord,
    d: DetectedV,
    matches: bool,
    needs_origin: bool,
    apply: bool,
) -> (bool, nat, nat, nat, nat, nat, Seq<ItemV>) {
    let needs = !matches || needs_origin;
    let items = if needs {
        seq![
            ItemV {
                skill_id: skill.id@,
                name: skill.name@,
                status: "repairable"@,
                reason: "由用户确认的显式 Git remote 与子路径恢复"@,
                previous_source_type: skill.source_type@,
                previous_source_ref: opt_view(skill.source_ref),
                remote_url: Some(d.remote_url),
                branch: None,
                subpath: d.subpath,
                applied: apply,
            },
        ]
    } else {
        Seq::empty()
    };
    (!apply, 1, items.len(), if apply && needs { 1 } else { 0 }, 0, if matches { 1 } else { 0 }, items)
}

/// Repair one skill to a Git source the user gave and that was checked:
/// the report and, when applying a needed repair, what to write.
pub fn repair_skill_source(
    skill: &SkillRecord,
    detected: &DetectedGitSource,
    current_origin: &Option<SkillOriginRecord>,
    rules: &OriginRules,
    apply: bool,
    now: i64,
) -> (r: (SourceRepairReport, Option<(SkillRecord, SkillOriginRecord)>))
    ensures
        ({
            let matches = spec_source_matches(*skill, detected@);
            let expected = spec_origin_record(origin_opt(*current_origin), skill.id@, detected@, *rules, now);
            let needs_origin = spec_needs_repair(origin_opt(*current_origin), expected);
            &&& report_view(r.0) == spec_explicit_report(*skill, detected@, matches, needs_origin, apply)
            &&& match r.1 {
                Some(u) => apply && (!matches || needs_origin) && u.0@ == spec_patched(*skill, detected@) && u.1@
                    == expected,
                None => !(apply && (!matches || needs_origin)),
            }
        }),
{
    let matches = source_matches(skill, detected);
    let expected = detected_origin_record(current_origin, skill.id.as_str(), detected, rules, now);
    let needs_origin = origin_needs_repair(current_origin, &expected);
    let needs = !matches || needs_origin;
    let mut items: Vec<SourceRepairItem> = Vec::new();
    if needs {
        items.push(SourceRepairItem {
            skill_id: skill.id.clone(),
            name: skill.name.clone(),
            status: owned("repairable"),
            reason: owned("由用户确认的显式 Git remote 与子路径恢复"),
            previous_source_type: skill.source_type.clone(),
            previous_source_ref: crate::text::copy_opt(&skill.source_ref),
            remote_url: Some(detected.remote_url.clone()),
            branch: None,
            subpath: crate::text::copy_opt(&detected.subpath),
            applied: apply,
        });
    }
    let update = if apply && needs { Some((patched_record(skill, detected), expected)) } else { None };
    let n = items.len();
    let report = SourceRepairReport {
        dry_run: !apply,
        scanned: 1,
        repairable: n,
        applied: if apply && needs { 1 } else { 0 },
        unresolved: 0,
        already_portable: if matches { 1 } else { 0 },
        items,
    };
    proof {
        let ghost iv = item_views(report.items@);
        if needs {
            assert(iv =~= spec_explicit_report(*skill, detected@, matches, needs_origin, apply).6);
        } else {
            assert(iv =~= Seq::<ItemV>::empty());
        }
    }
    (report, update)
}


/// The Git source recorded for a skill outside SkillDo: the skill lock's
/// entry for it, else the installed plugin that ships it.
pub fn detect_recorded_source(lock: Option<ProvenanceCandidate>, plugin: Option<ProvenanceCandidate>) -> (r: Option<DetectedGitSource>)
    ensures
        r == (match lock {
            Some(c) => Some(c.detected),
            None => match plugin {
                Some(c) => Some(c.detected),
                None => None,
            },
        }),
{
    match lock {
        Some(c) => Some(c.detected),
        None => match plugin {
            Some(c) => Some(c.detected),
            None => None,
        },
    }
}

/// The text under `key` in an object, if it holds text.
pub open spec fn text_field(v: JsonView, key: Seq<char>) -> Option<Seq<char>> {
    match field(v, key) {
        Some(JsonView::Text(t)) => Some(t),
        _ => None,
    }
}

fn text_field_of(v: &JsonValue, key: &str) -> (r: Option<String>)
    ensures
        opt_view(r) == text_field(v@, key@),
{
    match json_field(v, key) {
        Some(JsonValue::Text(t)) => Some(t.clone()),
        _ => None,
    }
}

/// One entry of a skill-lock file: the skill's name, and its `sourceType`,
/// `sourceUrl` and `skillPath`.
#[derive(Debug, Clone)]
pub struct LockEntry {
    pub name: String,
    pub source_type: String,
    pub source_url: String,
    pub skill_path: String,
}

pub open spec fn lock_entry_view(e: LockEntry) -> (Seq<char>, Seq<char>, Seq<char>, Seq<char>) {
    (e.name@, e.source_type@, e.source_url@, e.skill_path@)
}

/// A skill-lock entry, when it carries the three fields as text.
pub open spec fn spec_lock_entry(name: Seq<char>, v: JsonView) -> Option<(Seq<char>, Seq<char>, Seq<char>, Seq<char>)> {
    match (text_field(v, "sourceType"@), text_field(v, "sourceUrl"@), text_field(v, "skillPath"@)) {
        (Some(t), Some(u), Some(p)) => Some((name, t, u, p)),
        _ => None,
    }
}

/// The entries of the skills object of a lock file, in order; nothing when
/// any entry lacks one of its fields.
pub open spec fn lock_fields(fs: Seq<(Seq<char>, JsonView)>) -> Option<Seq<(Seq<char>, Seq<char>, Seq<char>, Seq<char>)>>
    decreases fs.len(),
{
    if fs.len() == 0 {
        Some(Seq::empty())
    } else {
        match (lock_fields(fs.drop_last()), spec_lock_entry(fs.last().0, fs.last().1)) {
            (Some(prev), Some(e)) => Some(prev.push(e)),
            _ => None,
        }
    }
}

proof fn lemma_lock_fields_fail(fs: Seq<(Seq<char>, JsonView)>, k: int)
    requires
        0 <= k <= fs.len(),
        lock_fields(fs.take(k)) is None,
    ensures
        lock_fields(fs) is None,
    decreases fs.len() - k,
{
    if k < fs.len() {
        let t = fs.take(k + 1);
        assert(t.drop_last() =~= fs.take(k));
        lemma_lock_fields_fail(fs, k + 1);
    } else {
        assert(fs.take(k) =~= fs);
    }
}

/// What a skill-lock file lists: the entries of its `skills` object (none
/// when it has no such field); nothing when the file is not an object, its
/// `skills` is not an object, or an entry lacks a field.
pub open spec fn spec_lock_entries(doc: JsonView) -> Option<Seq<(Seq<char>, Seq<char>, Seq<char>, Seq<char>)>> {
    match doc {
        JsonView::Object(_) => match field(doc, "skills"@) {
            None => Some(Seq::empty()),
            Some(JsonView::Object(fs)) => lock_fields(fs),
            Some(_) => None,
        },
        _ => None,
    }
}

/// What a skill-lock file lists (see [`spec_lock_entries`]).
pub fn lock_entries(doc: &JsonValue) -> (r: Option<Vec<LockEntry>>)
    ensures
        match r {
            Some(v) => spec_lock_entries(doc@) == Some(v@.map_values(|e: LockEntry| lock_entry_view(e))),
            None => spec_lock_entries(doc@) is None,
        },
{
    match doc {
        JsonValue::Object(_) => {},
        _ => return None,
    }
    let skills = match json_field(doc, "skills") {
        None => {
            assert(Seq::<LockEntry>::empty().map_values(|e: LockEntry| lock_entry_view(e)) =~= Seq::empty());
            return Some(Vec::new());
        },
        Some(s) => s,
    };
    let fields = match skills {
        JsonValue::Object(fields) => fields,
        _ => return None,
    };
    let ghost fv = match skills@ { JsonView::Object(f) => f, _ => Seq::empty() };
    assert(fv.len() == fields@.len());
    assert(spec_lock_entries(doc@) == lock_fields(fv));
    let mut out: Vec<LockEntry> = Vec::new();
    let mut i: usize = 0;
    assert(fv.take(0) =~= Seq::<(Seq<char>, JsonView)>::empty());
    while i < fields.len()
        invariant
            i <= fields@.len(),
            spec_lock_entries(doc@) == lock_fields(fv),
            fv.len() == fields@.len(),
            forall|j: int| 0 <= j < fields@.len() ==> #[trigger] fv[j] == (fields@[j].0@, fields@[j].1@),
            lock_fields(fv.take(i as int)) == Some(out@.map_values(|e: LockEntry| lock_entry_view(e))),
        decreases fields.len() - i,
    {
        let ghost t = fv.take(i + 1);
        assert(t.drop_last() =~= fv.take(i as int));
        assert(t.last() == fv[i as int]);
        let entry = &fields[i].1;
        let st = text_field_of(entry, "sourceType");
        let su = text_field_of(entry, "sourceUrl");
        let sp = text_field_of(entry, "skillPath");
        match (st, su, sp) {
            (Some(t), Some(u), Some(p)) => {
                let ghost prev = out@;
                let e = LockEntry { name: fields[i].0.clone(), source_type: t, source_url: u, skill_path: p };
                out.push(e);
                assert(out@.map_values(|e: LockEntry| lock_entry_view(e)) =~= prev.map_values(|e: LockEntry| lock_entry_view(e)).push(
                    lock_entry_view(e)));
            },
            _ => {
                proof {
                    assert(spec_lock_entry(fv[i as int].0, fv[i as int].1) is None);
                    assert(lock_fields(t) is None);
                    lemma_lock_fields_fail(fv, i + 1);
                }
                return None;
            },
        }
        i = i + 1;
    }
    assert(fv.take(fv.len() as int) =~= fv);
    Some(out)
}

/// The optional text under `key`: absent or `null` gives none, text gives
/// it, anything else makes the manifest unreadable.
pub open spec fn optional_text(v: JsonView, key: Seq<char>) -> Option<Option<Seq<char>>> {
    match field(v, key) {
        None => Some(None),
        Some(JsonView::Null) => Some(None),
        Some(JsonView::Text(t)) => Some(Some(t)),
        Some(_) => None,
    }
}

/// The `repository` and `skills` a plugin manifest names; nothing when it
/// is not an object or either field holds something other than text.
pub open spec fn spec_manifest_fields(doc: JsonView) -> Option<(Option<Seq<char>>, Option<Seq<char>>)> {
    match doc {
        JsonView::Object(_) => match (optional_text(doc, "repository"@), optional_text(doc, "skills"@)) {
            (Some(r), Some(s)) => Some((r, s)),
            _ => None,
        },
        _ => None,
    }
}

fn optional_text_of(v: &JsonValue, key: &str) -> (r: Option<Option<String>>)
    ensures
        match r {
            Some(o) => optional_text(v@, key@) == Some(opt_view(o)),
            None => optional_text(v@, key@) is None,
        },
{
    match json_field(v, key) {
        None => Some(None),
        Some(JsonValue::Null) => Some(None),
        Some(JsonValue::Text(t)) => Some(Some(t.clone())),
        Some(_) => None,
    }
}

/// The `repository` and `skills` a plugin manifest names (see
/// [`spec_manifest_fields`]).
pub fn manifest_fields(doc: &JsonValue) -> (r: Option<(Option<String>, Option<String>)>)
    ensures
        match r {
            Some((a, b)) => spec_manifest_fields(doc@) == Some((opt_view(a), opt_view(b))),
            None => spec_manifest_fields(doc@) is None,
        },
{
    match doc {
        JsonValue::Object(_) => {},
        _ => return None,
    }
    let repository = match optional_text_of(doc, "repository") {
        Some(r) => r,
        None => return None,
    };
    let skills = match optional_text_of(doc, "skills") {
        Some(s) => s,
        None => return None,
    };
    Some((repository, skills))
}

} // verus!
