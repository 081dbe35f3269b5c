//! Turning a local skill into a GitHub repository: its name, the requests
//! and Git steps that create and push it, and the origin it ends with.

use vstd::prelude::*;
use crate::app_config::opt_view;
use crate::records::{OriginV, SkillOriginRecord};
use crate::text::{
    after_first, chars_of, concat_str, extend_vec, find_pat, is_blank, is_ws, lemma_find_pat, owned, str_eq,
    string_of, trim, trim_vec,
};

verus! {

/// What publishing a local skill as a repository gave.
#[derive(Debug, Clone)]
pub struct RepoifyResult {
    pub skill_id: String,
    pub name: String,
    pub repo_url: String,
    pub commit: Option<String>,
    pub pushed: bool,
}

pub open spec fn is_ascii_alnum(c: char) -> bool {
    ('0' <= c && c <= '9') || ('a' <= c && c <= 'z') || ('A' <= c && c <= 'Z')
}

/// Letters and digits lowercased, every run of other characters as one
/// dash.
pub open spec fn slug_raw(s: Seq<char>) -> Seq<char>
    decreases s.len(),
{
    if s.len() == 0 {
        Seq::empty()
    } else {
        let p = slug_raw(s.drop_last());
        let c = s.last();
        if is_ascii_alnum(c) {
            p.push(crate::text::ascii_lower_char(c))
        } else if p.len() > 0 && p.last() == '-' && !is_ascii_alnum(s[s.len() - 2]) {
            p
        } else {
            p.push('-')
        }
    }
}

pub open spec fn drop_dashes_start(s: Seq<char>) -> Seq<char>
    decreases s.len(),
{
    if s.len() > 0 && s[0] == '-' { drop_dashes_start(s.drop_first()) } else { s }
}

pub open spec fn drop_dashes_end(s: Seq<char>) -> Seq<char>
    decreases s.len(),
{
    if s.len() > 0 && s.last() == '-' { drop_dashes_end(s.drop_last()) } else { s }
}

/// A repository name made from a skill name: ASCII letters and digits in
/// lowercase, other runs as single dashes, no dash at either end; `skill`
/// when nothing is left.
pub open spec fn spec_slugify(s: Seq<char>) -> Seq<char> {
    let t = drop_dashes_end(drop_dashes_start(slug_raw(s)));
    if t.len() == 0 { "skill"@ } else { t }
}

/// Make a repository name from a skill name.
pub fn slugify(input: &str) -> (r: String)
    ensures
        r@ == spec_slugify(input@),
{
    let v = chars_of(input);
    let mut out: Vec<char> = Vec::new();
    let mut prev_dash = false;
    let mut i: usize = 0;
    while i < v.len()
        invariant
            i <= v@.len(),
            out@ == slug_raw(v@.take(i as int)),
            prev_dash == (i > 0 && !is_ascii_alnum(v@[i - 1])),
            prev_dash ==> out@.len() > 0 && out@.last() == '-',
        decreases v.len() - i,
    {
        let c = v[i];
        proof {
            let t = v@.take(i + 1);
            assert(t.drop_last() =~= v@.take(i as int));
            assert(t.last() == c);
            if i > 0 {
                assert(t[t.len() - 2] == v@[i - 1]);
            }
        }
        let alnum = ('0' <= c && c <= '9') || ('a' <= c && c <= 'z') || ('A' <= c && c <= 'Z');
        if alnum {
            out.push(crate::text::ascii_lower_char_exec(c));
            prev_dash = false;
        } else if !prev_dash {
            out.push('-');
            prev_dash = true;
        }
        i = i + 1;
    }
    assert(v@.take(v@.len() as int) =~= v@);
    let mut a: usize = 0;
    assert(out@.skip(0) =~= out@);
    while a < out.len() && out[a] == '-'
        invariant
            a <= out@.len(),
            drop_dashes_start(out@) == drop_dashes_start(out@.skip(a as int)),
        decreases out.len() - a,
    {
        assert(out@.skip(a as int).drop_first() =~= out@.skip(a + 1));
        a = a + 1;
    }
    let ghost start = out@.skip(a as int);
    let mut b: usize = out.len();
    assert(out@.subrange(a as int, b as int) =~= start);
    while b > a && out[b - 1] == '-'
        invariant
            a <= b <= out@.len(),
            start == out@.skip(a as int),
            drop_dashes_end(start) == drop_dashes_end(out@.subrange(a as int, b as int)),
        decreases b,
    {
        assert(out@.subrange(a as int, b as int).drop_last() =~= out@.subrange(a as int, b - 1));
        b = b - 1;
    }
    let t = crate::text::slice_vec(&out, a, b);
    assert(drop_dashes_end(t@) == t@);
    if t.len() == 0 {
        owned("skill")
    } else {
        string_of(&t)
    }
}

/// How a repository name is derived from a skill.
pub trait RepoNameStrategy {
    fn repo_name(&self, skill_name: &str, suggested: Option<&str>) -> String;
}

/// The name a slugging strategy gives: the suggestion when it is not
/// blank, else the skill name, slugged.
pub open spec fn spec_repo_name(skill_name: Seq<char>, suggested: Option<Seq<char>>) -> Seq<char> {
    match suggested {
        Some(s) => if trim(s).len() > 0 { spec_slugify(s) } else { spec_slugify(skill_name) },
        None => spec_slugify(skill_name),
    }
}

/// The default strategy: slug the suggested name, or the skill name.
pub struct SlugifyStrategy;

impl RepoNameStrategy for SlugifyStrategy {
    fn repo_name(&self, skill_name: &str, suggested: Option<&str>) -> (r: String)
        ensures
            r@ == spec_repo_name(
                skill_name@,
                match suggested {
                    Some(s) => Some(s@),
                    None => None,
                },
            ),
    {
        match suggested {
            Some(s) => if !is_blank(s) { slugify(s) } else { slugify(skill_name) },
            None => slugify(skill_name),
        }
    }
}

/// A place for a model-suggested name; until one is wired in it names
/// repositories as the slugging strategy does.
pub struct LlmRepoNameStrategy;

impl RepoNameStrategy for LlmRepoNameStrategy {
    fn repo_name(&self, skill_name: &str, suggested: Option<&str>) -> (r: String)
        ensures
            r@ == spec_repo_name(
                skill_name@,
                match suggested {
                    Some(s) => Some(s@),
                    None => None,
                },
            ),
    {
        SlugifyStrategy.repo_name(skill_name, suggested)
    }
}

/// The owner a repository is created under: the given one, or the
/// authenticated user when none is given.
pub open spec fn spec_effective_owner(owner: Option<Seq<char>>, login: Seq<char>) -> Seq<char> {
    match owner {
        Some(o) => if o.len() == 0 { login } else { o },
        None => login,
    }
}

/// The owner a repository is created under.
pub fn effective_owner(owner: Option<&str>, login: &str) -> (r: String)
    ensures
        r@ == spec_effective_owner(
            match owner {
                Some(o) => Some(o@),
                None => None,
            },
            login@,
        ),
{
    match owner {
        Some(o) => if chars_of(o).len() == 0 { owned(login) } else { owned(o) },
        None => owned(login),
    }
}

/// Where a repository is created: under the user when the owner is empty
/// or the user, else under the organisation (which the request body then
/// names).
pub open spec fn spec_create_endpoint(owner: Seq<char>, login: Seq<char>) -> (Seq<char>, Option<Seq<char>>) {
    if owner.len() == 0 || owner == login {
        ("https://api.github.com/user/repos"@, None)
    } else {
        ("https://api.github.com/orgs/"@ + owner + "/repos"@, Some(owner))
    }
}

/// The endpoint creating a repository, and the organisation it names.
pub fn create_endpoint(owner: &str, login: &str) -> (r: (String, Option<String>))
    ensures
        (r.0@, opt_view(r.1)) == spec_create_endpoint(owner@, login@),
{
    if chars_of(owner).len() == 0 || str_eq(owner, login) {
        (owned("https://api.github.com/user/repos"), None)
    } else {
        let mut v = chars_of("https://api.github.com/orgs/");
        extend_vec(&mut v, &chars_of(owner));
        extend_vec(&mut v, &chars_of("/repos"));
        (string_of(&v), Some(owned(owner)))
    }
}

/// The clone URL of a repository that already exists (the service refused
/// to create it again).
pub open spec fn spec_existing_clone_url(owner: Seq<char>, login: Seq<char>, name: Seq<char>) -> Seq<char> {
    "https://github.com/"@ + (if owner.len() == 0 { login } else { owner }) + "/"@ + name + ".git"@
}

/// The clone URL of a repository that already exists.
pub fn existing_clone_url(owner: &str, login: &str, name: &str) -> (r: String)
    ensures
        r@ == spec_existing_clone_url(owner@, login@, name@),
{
    let mut v = chars_of("https://github.com/");
    if chars_of(owner).len() == 0 {
        extend_vec(&mut v, &chars_of(login));
    } else {
        extend_vec(&mut v, &chars_of(owner));
    }
    extend_vec(&mut v, &chars_of("/"));
    extend_vec(&mut v, &chars_of(name));
    extend_vec(&mut v, &chars_of(".git"));
    string_of(&v)
}

/// A clone URL with the token embedded for pushing over HTTPS: the first
/// `https://` becomes `https://<token>@`.
pub open spec fn spec_authenticated_url(url: Seq<char>, token: Seq<char>) -> Seq<char> {
    let k = find_pat(url, "https://"@, 0);
    if k == -1 {
        url
    } else {
        url.take(k) + "https://"@ + trim(token) + "@"@ + url.skip(k + "https://"@.len())
    }
}

/// Embed the token in a clone URL.
pub fn authenticated_url(url: &str, token: &str) -> (r: String)
    ensures
        r@ == spec_authenticated_url(url@, token@),
{
    let v = chars_of(url);
    let p = chars_of("https://");
    match crate::text::find_vec(&v, &p, 0) {
        None => owned(url),
        Some(k) => {
            proof {
                lemma_find_pat(v@, p@, 0);
            }
            assert(k + p@.len() <= v@.len());
            let vl = v.len();
            let pl = p.len();
            assert(k + pl <= vl);
            let end: usize = k + pl;
            let mut out = crate::text::slice_vec(&v, 0, k);
            extend_vec(&mut out, &p);
            extend_vec(&mut out, &trim_vec(&chars_of(token)));
            extend_vec(&mut out, &chars_of("@"));
            extend_vec(&mut out, &crate::text::slice_vec(&v, end, v.len()));
            assert(out@ =~= spec_authenticated_url(url@, token@));
            string_of(&out)
        },
    }
}

/// The word `origin` stands alone, between whitespace or the ends, in the
/// output listing the remotes.
pub open spec fn spec_has_origin(remotes: Seq<char>) -> bool {
    exists|i: int|
        0 <= i && i + 6 <= remotes.len() && #[trigger] remotes.subrange(i, i + 6) == "origin"@ && (i == 0 || is_ws(
            remotes[i - 1],
        )) && (i + 6 == remotes.len() || is_ws(remotes[i + 6]))
}

/// Whether the remotes listing names `origin`.
pub fn has_origin_remote(remotes: &str) -> (r: bool)
    ensures
        r == spec_has_origin(remotes@),
{
    let v = chars_of(remotes);
    let w = chars_of("origin");
    proof {
        reveal_strlit("origin");
    }
    let mut i: usize = 0;
    while v.len() >= 6 && i <= v.len() - 6
        invariant
            v@ == remotes@,
            w@ == "origin"@,
            w@.len() == 6,
            forall|j: int|
                0 <= j < i ==> !(j + 6 <= v@.len() && #[trigger] v@.subrange(j, j + 6) == "origin"@ && (j == 0
                    || is_ws(v@[j - 1])) && (j + 6 == v@.len() || is_ws(v@[j + 6]))),
        decreases v.len() - i,
    {
        let here = crate::text::matches_at(&v, &w, i);
        let left = i == 0 || crate::text::char_is_ws(v[i - 1]);
        let right = i + 6 == v.len() || crate::text::char_is_ws(v[i + 6]);
        if here && left && right {
            assert(v@.subrange(i as int, i + 6) =~= w@);
            assert(remotes@.subrange(i as int, i + 6) == "origin"@);
            return true;
        }
        proof {
            if v@.subrange(i as int, i + 6) == "origin"@ {
                assert(v@.subrange(i as int, i + 6) =~= w@);
            }
        }
        i = i + 1;
    }
    false
}

/// The commit message of the first commit: the given one when not blank,
/// else one naming the skill.
pub open spec fn spec_commit_message(message: Option<Seq<char>>, skill_name: Seq<char>) -> Seq<char> {
    match message {
        Some(m) => if trim(m).len() > 0 { m } else { "Initial commit for skill "@ + skill_name },
        None => "Initial commit for skill "@ + skill_name,
    }
}

/// The commit message of the first commit.
pub fn commit_message(message: Option<&str>, skill_name: &str) -> (r: String)
    ensures
        r@ == spec_commit_message(
            match message {
                Some(m) => Some(m@),
                None => None,
            },
            skill_name@,
        ),
{
    match message {
        Some(m) => if !is_blank(m) {
            owned(m)
        } else {
            concat_str("Initial commit for skill ", skill_name)
        },
        None => concat_str("Initial commit for skill ", skill_name),
    }
}

/// The branch a push goes to, read from `git rev-parse --abbrev-ref HEAD`:
/// none when the output (trimmed) is empty or `HEAD`.
pub open spec fn spec_push_branch(output: Seq<char>) -> Option<Seq<char>> {
    let b = trim(output);
    if b.len() == 0 || b == "HEAD"@ { None } else { Some(b) }
}

/// The branch a push goes to.
pub fn push_branch(output: &str) -> (r: Option<String>)
    ensures
        opt_view(r) == spec_push_branch(output@),
{
    let b = trim_vec(&chars_of(output));
    if b.len() == 0 || crate::text::vec_eq(&b, &chars_of("HEAD")) {
        None
    } else {
        Some(string_of(&b))
    }
}

/// The origin recorded for a skill once it was published as the user's
/// own repository, at time `now`.
pub open spec fn spec_published_origin(
    skill_id: Seq<char>,
    clone_url: Seq<char>,
    owner: Seq<char>,
    name: Seq<char>,
    branch: Seq<char>,
    now: i64,
) -> OriginV {
    OriginV {
        skill_id,
        origin_kind: "git"@,
        origin_role: "mine"@,
        provider: Some("github"@),
        remote_url: Some(clone_url),
        owner: Some(owner),
        repo: Some(name),
        branch: Some(branch),
        subpath: None,
        update_strategy: "git_pull"@,
        publish_strategy: "git_push"@,
        manual_override: false,
        reason: None,
        updated_at: now,
    }
}

/// The origin of a skill published as the user's own repository.
pub fn published_origin(skill_id: &str, clone_url: &str, owner: &str, name: &str, branch: &str, now: i64) -> (r: SkillOriginRecord)
    ensures
        r@ == spec_published_origin(skill_id@, clone_url@, owner@, name@, branch@, now),
{
    SkillOriginRecord {
        skill_id: owned(skill_id),
        origin_kind: owned("git"),
        origin_role: owned("mine"),
        provider: Some(owned("github")),
        remote_url: Some(owned(clone_url)),
        owner: Some(owned(owner)),
        repo: Some(owned(name)),
        branch: Some(owned(branch)),
        subpath: None,
        update_strategy: owned("git_pull"),
        publish_strategy: owned("git_push"),
        manual_override: false,
        reason: None,
        updated_at: now,
    }
}

} // verus!
