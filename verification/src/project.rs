//! Project-level skills: the repository a project lives in, the skills it
//! carries, and the projects this device knows of.

use vstd::prelude::*;
use crate::order::{insert_sorted_unique, lemma_is_sorted_of, sorted_of, sorted_strict, views};
use crate::text::{
    ascii_lower, chars_of, has_prefix, has_suffix, is_blank, is_ws, lead_ws, lemma_lower_ascii_fixed, lower_ascii,
    lowercase, lowercase_vec, text_lower, trim_start, replace_all, replace_vec, str_eq, string_of, strip_prefix_all,
    strip_prefix_all_vec, strip_suffix_all, strip_suffix_all_vec, trim, trim_vec,
};

verus! {

/// The settings key of the recent-projects list.
pub const RECENT_PROJECTS_SETTING: &'static str = "recent_projects_v1";

/// How many recent projects are remembered.
pub const RECENT_PROJECTS_LIMIT: usize = 20;

/// How many recent projects the desktop project picker keeps.
pub const RECENT_PICKER_LIMIT: usize = 8;

/// The Git repository a project lives in.
#[derive(Debug, Clone)]
pub struct ProjectRepositoryInfo {
    pub root: String,
    pub remote_url: Option<String>,
    pub branch: Option<String>,
    pub revision: Option<String>,
    pub dirty: bool,
}

/// A skill found in a project.
#[derive(Debug, Clone)]
pub struct ProjectSkillEntry {
    pub name: String,
    pub path: String,
    pub relative_dir: String,
    pub repository_subpath: Option<String>,
    pub is_tracked: bool,
    pub tools: Vec<String>,
}

/// The skills of one project.
#[derive(Debug, Clone)]
pub struct ProjectSkillInventory {
    pub project_path: String,
    pub repository: Option<ProjectRepositoryInfo>,
    pub skills: Vec<ProjectSkillEntry>,
}

/// A repository URL in comparable form: trimmed, lowercased, without a
/// `git+` or transport prefix, `www.` or a `.git` suffix, with forward
/// slashes, and GitHub SSH remotes written as `github.com/owner/repo`.
pub open spec fn spec_normalize_repository_url(s: Seq<char>) -> Seq<char> {
    let a = strip_prefix_all(text_lower(trim(s)), "git+"@);
    let b = strip_prefix_all(a, "ssh://"@);
    let c = strip_prefix_all(b, "https://"@);
    let d = strip_prefix_all(c, "http://"@);
    let e = strip_prefix_all(d, "www."@);
    let f = strip_suffix_all(e, ".git"@);
    replace_all(replace_all(f, "\\"@, "/"@), "git@github.com:"@, "github.com/"@)
}

proof fn lemma_trim_fixed(s: Seq<char>)
    requires
        s.len() > 0,
        !is_ws(s[0]),
        !is_ws(s.last()),
    ensures
        trim(s) == s,
{
    assert(lead_ws(s) == 0);
    assert(trim_start(s) =~= s);
}

proof fn lemma_no_prefix(s: Seq<char>, p: Seq<char>, i: int)
    requires
        0 <= i < p.len(),
        i < s.len() ==> s[i] != p[i],
    ensures
        strip_prefix_all(s, p) == s,
{
    if has_prefix(s, p) {
        assert(s.subrange(0, p.len() as int)[i] == s[i]);
    }
}

proof fn lemma_replace_absent(s: Seq<char>, from: Seq<char>, to: Seq<char>, k: int)
    requires
        0 <= k < from.len(),
        forall|i: int| 0 <= i < s.len() ==> s[i] != from[k],
    ensures
        replace_all(s, from, to) == s,
    decreases s.len(),
{
    if s.len() >= from.len() {
        if has_prefix(s, from) {
            assert(s.subrange(0, from.len() as int)[k] == s[k]);
        } else {
            lemma_replace_absent(s.drop_first(), from, to, k);
            assert(seq![s[0]] + s.drop_first() =~= s);
        }
    }
}

proof fn lemma_strip_one_suffix(x: Seq<char>, p: Seq<char>)
    requires
        p.len() > 0,
        !has_suffix(x, p),
    ensures
        strip_suffix_all(x + p, p) == x,
{
    let y = x + p;
    assert(y.subrange(y.len() - p.len(), y.len() as int) =~= p);
    assert(y.subrange(0, y.len() - p.len()) =~= x);
    assert(strip_suffix_all(x, p) == x);
    assert(has_suffix(y, p));
}

proof fn lemma_strip_one_prefix(p: Seq<char>, x: Seq<char>)
    requires
        p.len() > 0,
        !has_prefix(x, p),
    ensures
        strip_prefix_all(p + x, p) == x,
{
    let y = p + x;
    assert(y.subrange(0, p.len() as int) =~= p);
    assert(y.skip(p.len() as int) =~= x);
    assert(strip_prefix_all(x, p) == x);
    assert(has_prefix(y, p));
}

/// A repository path as a GitHub owner and repository name spell it in
/// lowercase: ASCII, no uppercase letter, no `\\` or `:`, and not ending in
/// `.git`.
pub open spec fn plain_repo_path(p: Seq<char>) -> bool {
    &&& lower_ascii(p)
    &&& forall|i: int| 0 <= i < p.len() ==> #[trigger] p[i] != '\\' && p[i] != ':'
    &&& !has_suffix(p, ".git"@)
}

proof fn lemma_no_git_suffix(a: Seq<char>, p: Seq<char>)
    requires
        a.len() >= 4,
        a.last() == '/' || a.last() == ':',
        !has_suffix(p, ".git"@),
    ensures
        !has_suffix(a + p, ".git"@),
{
    reveal_strlit(".git");
    let y = a + p;
    if has_suffix(y, ".git"@) {
        if p.len() >= 4 {
            assert(p.subrange(p.len() - 4, p.len() as int) =~= y.subrange(y.len() - 4, y.len() as int));
        } else {
            let j = 3 - p.len();
            assert(y.subrange(y.len() - 4, y.len() as int)[j] == y[a.len() - 1]);
            assert(y[a.len() - 1] == a.last());
        }
    }
}

/// The `https` and the SSH form of one GitHub repository are the same
/// repository: both normalize to `github.com/<path>`.
pub proof fn law_github_transports_normalize_alike(path: Seq<char>)
    requires
        plain_repo_path(path),
    ensures
        spec_normalize_repository_url("https://github.com/"@ + path + ".git"@) == "github.com/"@ + path,
        spec_normalize_repository_url("git@github.com:"@ + path + ".git"@) == "github.com/"@ + path,
        trim("https://github.com/"@ + path + ".git"@) == "https://github.com/"@ + path + ".git"@,
        trim("git@github.com:"@ + path + ".git"@) == "git@github.com:"@ + path + ".git"@,
{
    reveal_strlit("https://github.com/");
    reveal_strlit("git@github.com:");
    reveal_strlit("github.com/");
    reveal_strlit(".git");
    reveal_strlit("git+");
    reveal_strlit("ssh://");
    reveal_strlit("https://");
    reveal_strlit("http://");
    reveal_strlit("www.");
    reveal_strlit("\\");
    reveal_strlit("/");
    let gh = "github.com/"@;
    let u = gh + path;
    assert(lower_ascii(gh)) by {
        assert forall|i: int| 0 <= i < gh.len() implies (#[trigger] gh[i] as u32) < 128 && !('A' <= gh[i] && gh[i] <= 'Z') by {}
    }
    assert(lower_ascii(u)) by {
        assert forall|i: int| 0 <= i < u.len() implies (#[trigger] u[i] as u32) < 128 && !('A' <= u[i] && u[i] <= 'Z') by {
            if i >= gh.len() {
                assert(u[i] == path[i - gh.len()]);
            }
        }
    }
    assert forall|i: int| 0 <= i < u.len() implies u[i] != '\\' && u[i] != ':' by {
        if i >= gh.len() {
            assert(u[i] == path[i - gh.len()]);
        }
    }
    lemma_replace_absent(u, "\\"@, "/"@, 0);
    assert("git@github.com:"@[14] == ':');
    lemma_replace_absent(u, "git@github.com:"@, gh, 14);
    // https form
    let s1 = "https://github.com/"@ + path + ".git"@;
    assert(s1 =~= "https://"@ + (u + ".git"@));
    lemma_trim_fixed(s1);
    let l1 = ascii_lower(s1);
    assert(lower_ascii(s1)) by {
        assert forall|i: int| 0 <= i < s1.len() implies (#[trigger] s1[i] as u32) < 128 && !('A' <= s1[i] && s1[i] <= 'Z') by {
            if 19 <= i < 19 + path.len() {
                assert(s1[i] == path[i - 19]);
            }
        }
    }
    lemma_lower_ascii_fixed(s1);
    lemma_no_prefix(s1, "git+"@, 0);
    lemma_no_prefix(s1, "ssh://"@, 0);
    assert(!has_prefix(u + ".git"@, "https://"@)) by {
        assert((u + ".git"@)[0] == 'g');
        if has_prefix(u + ".git"@, "https://"@) {
            assert((u + ".git"@).subrange(0, 8)[0] == (u + ".git"@)[0]);
        }
    }
    lemma_strip_one_prefix("https://"@, u + ".git"@);
    lemma_no_prefix(u + ".git"@, "http://"@, 0);
    lemma_no_prefix(u + ".git"@, "www."@, 0);
    lemma_no_git_suffix(gh, path);
    lemma_strip_one_suffix(u, ".git"@);
    // ssh form
    let pre = "git@github.com:"@;
    let v = pre + path;
    let s2 = v + ".git"@;
    assert(s2 =~= "git@github.com:"@ + path + ".git"@);
    lemma_trim_fixed(s2);
    assert(lower_ascii(s2)) by {
        assert forall|i: int| 0 <= i < s2.len() implies (#[trigger] s2[i] as u32) < 128 && !('A' <= s2[i] && s2[i] <= 'Z') by {
            if 15 <= i < 15 + path.len() {
                assert(s2[i] == path[i - 15]);
            }
        }
    }
    lemma_lower_ascii_fixed(s2);
    lemma_no_prefix(s2, "git+"@, 3);
    lemma_no_prefix(s2, "ssh://"@, 0);
    lemma_no_prefix(s2, "https://"@, 0);
    lemma_no_prefix(s2, "http://"@, 0);
    lemma_no_prefix(s2, "www."@, 0);
    lemma_no_git_suffix(pre, path);
    lemma_strip_one_suffix(v, ".git"@);
    assert forall|i: int| 0 <= i < v.len() implies v[i] != '\\' by {
        if i >= pre.len() {
            assert(v[i] == path[i - pre.len()]);
        }
    }
    lemma_replace_absent(v, "\\"@, "/"@, 0);
    assert forall|i: int| 0 <= i < path.len() implies path[i] != "git@github.com:"@[14] by {}
    lemma_replace_absent(path, pre, gh, 14);
    assert(v.subrange(0, pre.len() as int) =~= pre);
    assert(v.skip(pre.len() as int) =~= path);
    assert(replace_all(v, pre, gh) == gh + replace_all(path, pre, gh));
}

/// Bring a repository URL into comparable form.
pub fn normalize_repository_url(value: &str) -> (r: String)
    ensures
        r@ == spec_normalize_repository_url(value@),
{
    let t = trim_vec(&chars_of(value));
    let l = lowercase_vec(&t);
    let a = strip_prefix_all_vec(&l, &chars_of("git+"));
    let b = strip_prefix_all_vec(&a, &chars_of("ssh://"));
    let c = strip_prefix_all_vec(&b, &chars_of("https://"));
    let d = strip_prefix_all_vec(&c, &chars_of("http://"));
    let e = strip_prefix_all_vec(&d, &chars_of("www."));
    let f = strip_suffix_all_vec(&e, &chars_of(".git"));
    let g = replace_vec(&f, &chars_of("\\"), &chars_of("/"));
    string_of(&replace_vec(&g, &chars_of("git@github.com:"), &chars_of("github.com/")))
}

/// A skill's target as the projects list needs it: its scope and project
/// path.
#[derive(Debug, Clone)]
pub struct TargetScope {
    pub scope: String,
    pub project_path: Option<String>,
}

/// A target in project scope whose project path is `p`, not blank.
pub open spec fn names_project(t: TargetScope, p: Seq<char>) -> bool {
    t.scope@ == "project"@ && t.project_path is Some && t.project_path.unwrap()@ == p && trim(p).len() > 0
}

/// The non-blank recent projects and the non-blank project paths of
/// project-scoped targets.
pub open spec fn known_paths(recent: Seq<Seq<char>>, targets: Seq<TargetScope>) -> Set<Seq<char>> {
    Set::new(
        |p: Seq<char>|
            (exists|i: int| 0 <= i < recent.len() && #[trigger] recent[i] == p && trim(p).len() > 0) || (exists|
                j: int,
            |
                0 <= j < targets.len() && #[trigger] names_project(targets[j], p)),
    )
}

/// Every project this device knows: the recent projects and those that a
/// skill targets, each once, in order.
pub fn known_project_paths(recent: &Vec<String>, targets: &Vec<TargetScope>) -> (r: Vec<String>)
    ensures
        views(r@) == sorted_of(known_paths(views(recent@), targets@)),
{
    let ghost rv = views(recent@);
    let mut out: Vec<String> = Vec::new();
    let mut i: usize = 0;
    while i < recent.len()
        invariant
            i <= recent@.len(),
            rv == views(recent@),
            sorted_strict(views(out@)),
            views(out@).to_set() == Set::new(
                |p: Seq<char>| exists|m: int| 0 <= m < i && #[trigger] rv[m] == p && trim(p).len() > 0,
            ),
        decreases recent.len() - i,
    {
        let ghost before = views(out@).to_set();
        if !is_blank(recent[i].as_str()) {
            insert_sorted_unique(&mut out, recent[i].clone());
        }
        assert(views(out@).to_set() =~= Set::new(
            |p: Seq<char>| exists|m: int| 0 <= m < i + 1 && #[trigger] rv[m] == p && trim(p).len() > 0,
        )) by {
            assert forall|p: Seq<char>|
                (exists|m: int| 0 <= m < i + 1 && #[trigger] rv[m] == p && trim(p).len() > 0) implies views(
                out@,
            ).to_set().contains(p) by {
                let m = choose|m: int| 0 <= m < i + 1 && #[trigger] rv[m] == p && trim(p).len() > 0;
                if m < i {
                    assert(before.contains(p));
                }
            }
            assert forall|p: Seq<char>| views(out@).to_set().contains(p) implies (exists|m: int|
                0 <= m < i + 1 && #[trigger] rv[m] == p && trim(p).len() > 0) by {
                if before.contains(p) {
                    let m = choose|m: int| 0 <= m < i && #[trigger] rv[m] == p && trim(p).len() > 0;
                    assert(0 <= m < i + 1);
                } else {
                    assert(rv[i as int] == p);
                }
            }
        }
        i = i + 1;
    }
    let ghost from_recent = views(out@).to_set();
    let mut j: usize = 0;
    while j < targets.len()
        invariant
            j <= targets@.len(),
            rv == views(recent@),
            sorted_strict(views(out@)),
            from_recent == Set::new(
                |p: Seq<char>| exists|m: int| 0 <= m < recent@.len() && #[trigger] rv[m] == p && trim(p).len() > 0,
            ),
            views(out@).to_set() == from_recent + Set::new(
                |p: Seq<char>|
                    exists|m: int|
                        0 <= m < j && #[trigger] names_project(targets@[m], p),
            ),
        decreases targets.len() - j,
    {
        let ghost before = views(out@).to_set();
        let t = &targets[j];
        let ghost mut added: Set<Seq<char>> = Set::empty();
        if str_eq(t.scope.as_str(), "project") {
            match &t.project_path {
                Some(p) => {
                    if !is_blank(p.as_str()) {
                        insert_sorted_unique(&mut out, p.clone());
                        proof {
                            added = set![p@];
                        }
                    }
                },
                None => {},
            }
        }
        assert(views(out@).to_set() =~= before + added);
        assert(forall|x: Seq<char>| added.contains(x) ==> names_project(targets@[j as int], x));
        assert(views(out@).to_set() =~= from_recent + Set::new(
            |p: Seq<char>|
                exists|m: int|
                    0 <= m < j + 1 && #[trigger] names_project(targets@[m], p),
        )) by {
            let pred_old = |p: Seq<char>|
                exists|m: int|
                    0 <= m < j && #[trigger] names_project(targets@[m], p);
            assert forall|p: Seq<char>|
                (exists|m: int|
                    0 <= m < j + 1 && #[trigger] names_project(targets@[m], p)) implies views(out@).to_set().contains(p) by {
                let m = choose|m: int|
                    0 <= m < j + 1 && #[trigger] names_project(targets@[m], p);
                if m < j {
                    assert(pred_old(p));
                    assert(before.contains(p));
                }
            }
            assert forall|p: Seq<char>| views(out@).to_set().contains(p) implies from_recent.contains(p) || (exists|
                m: int,
            |
                0 <= m < j + 1 && #[trigger] names_project(targets@[m], p)) by {
                if before.contains(p) {
                    if !from_recent.contains(p) {
                        assert(pred_old(p));
                        let m = choose|m: int|
                            0 <= m < j && #[trigger] names_project(targets@[m], p);
                        assert(0 <= m < j + 1);
                    }
                } else {
                    assert(added.contains(p));
                    assert(names_project(targets@[j as int], p));
                }
            }
        }
        j = j + 1;
    }
    proof {
        assert(views(out@).to_set() =~= known_paths(rv, targets@));
        lemma_is_sorted_of(views(out@));
    }
    out
}

} // verus!
