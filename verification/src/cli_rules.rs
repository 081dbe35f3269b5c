//! Argument-level rules shared by the command front-ends: scopes, custom
//! tool targets, configuration key paths, GitHub repository references,
//! Git configuration parsing and the recent-projects list.

use vstd::prelude::*;
use crate::order::views;
use crate::records::SkillRecord;
use crate::text::{
    after_first, after_first_vec, chars_of, concat_str, contains, contains_vec, extend_vec, has_prefix, join,
    lines, lines_vec, owned, replace_all, replace_vec, slice_vec, split_char, split_char_vec,
    starts_with_vec, str_eq, string_of, strip_suffix_all, strip_suffix_all_vec, trim, trim_vec,
    vec_eq,
};

verus! {

/// The scope named by a request: `global` when absent, otherwise `global`
/// or `project`; anything else is refused with its value.
pub open spec fn spec_normalize_scope(scope: Option<Seq<char>>) -> Result<Seq<char>, Seq<char>> {
    match scope {
        None => Ok("global"@),
        Some(s) => if s == "global"@ {
            Ok("global"@)
        } else if s == "project"@ {
            Ok("project"@)
        } else {
            Err("invalid scope: "@ + s)
        },
    }
}

/// Resolve the scope argument of a sync request.
pub fn normalize_scope(scope: Option<&str>) -> (r: Result<&'static str, String>)
    ensures
        match (r, spec_normalize_scope(match scope { Some(s) => Some(s@), None => None })) {
            (Ok(a), Ok(b)) => a@ == b,
            (Err(a), Err(b)) => a@ == b,
            _ => false,
        },
{
    match scope {
        None => Ok("global"),
        Some(s) => {
            if str_eq(s, "global") {
                Ok("global")
            } else if str_eq(s, "project") {
                Ok("project")
            } else {
                Err(crate::text::concat_str("invalid scope: ", s))
            }
        },
    }
}

/// The directory of a `custom:<path>` tool key, when the path is not blank.
pub open spec fn spec_custom_tool_dir(tool_key: Seq<char>) -> Option<Seq<char>> {
    if has_prefix(tool_key, "custom:"@) && trim(tool_key.skip(7)).len() > 0 {
        Some(tool_key.skip(7))
    } else {
        None
    }
}

/// The directory named by a custom tool key.
pub fn custom_tool_dir(tool_key: &str) -> (r: Option<String>)
    ensures
        crate::app_config::opt_view(r) == spec_custom_tool_dir(tool_key@),
{
    let v = chars_of(tool_key);
    let p = chars_of("custom:");
    proof { reveal_strlit("custom:"); }
    if starts_with_vec(&v, &p) {
        let rest = slice_vec(&v, 7, v.len());
        assert(rest@ =~= tool_key@.skip(7));
        if trim_vec(&rest).len() > 0 {
            return Some(string_of(&rest));
        }
    }
    None
}

/// The snake_case configuration key part mapped to its camelCase field.
pub open spec fn canonical_part(p: Seq<char>) -> Seq<char> {
    if p == "storage_path"@ { "storagePath"@ }
    else if p == "github_token"@ { "githubToken"@ }
    else if p == "git_cache_cleanup_days"@ { "gitCacheCleanupDays"@ }
    else if p == "git_cache_ttl_secs"@ { "gitCacheTtlSecs"@ }
    else if p == "origin_rules"@ { "originRules"@ }
    else if p == "current_author"@ { "currentAuthor"@ }
    else if p == "tool_dir_overrides"@ { "toolDirOverrides"@ }
    else if p == "custom_scan_dirs"@ { "customScanDirs"@ }
    else if p == "explore_sources"@ { "exploreSources"@ }
    else if p == "my_git_owners"@ { "myGitOwners"@ }
    else if p == "my_git_repos"@ { "myGitRepos"@ }
    else if p == "official_git_repos"@ { "officialGitRepos"@ }
    else if p == "github_login"@ { "githubLogin"@ }
    else if p == "github_url"@ { "githubUrl"@ }
    else if p == "remote_dir"@ { "remoteDir"@ }
    else { p }
}

fn canonical_part_exec(p: &Vec<char>) -> (r: Vec<char>)
    ensures
        r@ == canonical_part(p@),
{
    let pairs: [(&str, &str); 15] = [
        ("storage_path", "storagePath"),
        ("github_token", "githubToken"),
        ("git_cache_cleanup_days", "gitCacheCleanupDays"),
        ("git_cache_ttl_secs", "gitCacheTtlSecs"),
        ("origin_rules", "originRules"),
        ("current_author", "currentAuthor"),
        ("tool_dir_overrides", "toolDirOverrides"),
        ("custom_scan_dirs", "customScanDirs"),
        ("explore_sources", "exploreSources"),
        ("my_git_owners", "myGitOwners"),
        ("my_git_repos", "myGitRepos"),
        ("official_git_repos", "officialGitRepos"),
        ("github_login", "githubLogin"),
        ("github_url", "githubUrl"),
        ("remote_dir", "remoteDir"),
    ];
    if vec_eq(p, &chars_of(pairs[0].0)) { return chars_of(pairs[0].1); }
    if vec_eq(p, &chars_of(pairs[1].0)) { return chars_of(pairs[1].1); }
    if vec_eq(p, &chars_of(pairs[2].0)) { return chars_of(pairs[2].1); }
    if vec_eq(p, &chars_of(pairs[3].0)) { return chars_of(pairs[3].1); }
    if vec_eq(p, &chars_of(pairs[4].0)) { return chars_of(pairs[4].1); }
    if vec_eq(p, &chars_of(pairs[5].0)) { return chars_of(pairs[5].1); }
    if vec_eq(p, &chars_of(pairs[6].0)) { return chars_of(pairs[6].1); }
    if vec_eq(p, &chars_of(pairs[7].0)) { return chars_of(pairs[7].1); }
    if vec_eq(p, &chars_of(pairs[8].0)) { return chars_of(pairs[8].1); }
    if vec_eq(p, &chars_of(pairs[9].0)) { return chars_of(pairs[9].1); }
    if vec_eq(p, &chars_of(pairs[10].0)) { return chars_of(pairs[10].1); }
    if vec_eq(p, &chars_of(pairs[11].0)) { return chars_of(pairs[11].1); }
    if vec_eq(p, &chars_of(pairs[12].0)) { return chars_of(pairs[12].1); }
    if vec_eq(p, &chars_of(pairs[13].0)) { return chars_of(pairs[13].1); }
    if vec_eq(p, &chars_of(pairs[14].0)) { return chars_of(pairs[14].1); }
    crate::text::slice_vec(p, 0, p.len())
}


/// A configuration key with every dotted part in its serialized spelling.
pub open spec fn spec_canonical_config_key(key: Seq<char>) -> Seq<char> {
    join(split_char(key, '.').map_values(|p: Seq<char>| canonical_part(p)), "."@)
}

/// Map a user-facing configuration key to the serialized field path.
pub fn canonical_config_key(key: &str) -> (r: String)
    ensures
        r@ == spec_canonical_config_key(key@),
{
    let parts = split_char_vec(&chars_of(key), '.');
    let ghost sp = split_char(key@, '.');
    let mut mapped: Vec<Vec<char>> = Vec::new();
    let mut i: usize = 0;
    while i < parts.len()
        invariant
            i <= parts@.len() == sp.len(),
            sp == split_char(key@, '.'),
            forall|k: int| 0 <= k < parts@.len() ==> #[trigger] parts@[k]@ == sp[k],
            mapped@.len() == i,
            forall|k: int| 0 <= k < i ==> #[trigger] mapped@[k]@ == canonical_part(sp[k]),
        decreases parts.len() - i,
    {
        assert(parts@[i as int]@ == sp[i as int]);
        let ghost prev = mapped@;
        mapped.push(canonical_part_exec(&parts[i]));
        proof {
            assert forall|k: int| 0 <= k < i + 1 implies #[trigger] mapped@[k]@ == canonical_part(sp[k]) by {
                if k < i {
                    assert(mapped@[k] == prev[k]);
                }
            }
        }
        i = i + 1;
    }
    let joined = crate::text::join_from(&mapped, 0, &chars_of("."));
    assert(mapped@.subrange(0, mapped@.len() as int).map_values(|v: Vec<char>| v@)
        =~= sp.map_values(|p: Seq<char>| canonical_part(p)));
    string_of(&joined)
}

/// The dotted parts of a configuration key.
pub fn config_key_path(key: &str) -> (r: Vec<String>)
    ensures
        views(r@) == split_char(key@, '.'),
{
    let parts = split_char_vec(&chars_of(key), '.');
    let mut out: Vec<String> = Vec::new();
    let mut i: usize = 0;
    while i < parts.len()
        invariant
            i <= parts@.len() == split_char(key@, '.').len(),
            forall|k: int| 0 <= k < parts@.len() ==> #[trigger] parts@[k]@ == split_char(key@, '.')[k],
            views(out@) == split_char(key@, '.').subrange(0, i as int),
        decreases parts.len() - i,
    {
        assert(parts@[i as int]@ == split_char(key@, '.')[i as int]);
        let ghost prev = views(out@);
        let piece = string_of(&parts[i]);
        out.push(piece);
        assert(views(out@) =~= prev.push(piece@));
        i = i + 1;
        assert(views(out@) =~= split_char(key@, '.').subrange(0, i as int));
    }
    assert(split_char(key@, '.').subrange(0, i as int) =~= split_char(key@, '.'));
    out
}

/// GitHub owner and repository of a source reference, as the command line
/// reports them: trailing slashes and `.git` removed, SSH form accepted.
pub open spec fn spec_parse_github_repository(source: Seq<char>) -> (Option<Seq<char>>, Option<Seq<char>>) {
    let n = replace_all(
        strip_suffix_all(strip_suffix_all(trim(source), "/"@), ".git"@),
        "git@github.com:"@,
        "https://github.com/"@,
    );
    match after_first(n, "github.com/"@) {
        None => (None, None),
        Some(tail) => {
            let parts = split_char(tail, '/');
            (
                crate::origin::non_empty(crate::origin::nth_piece(parts, 0)),
                crate::origin::non_empty(crate::origin::nth_piece(parts, 1)),
            )
        },
    }
}

fn piece_at(parts: &Vec<Vec<char>>, i: usize) -> (r: Option<String>)
    ensures
        crate::app_config::opt_view(r) == crate::origin::non_empty(
            crate::origin::nth_piece(parts@.map_values(|v: Vec<char>| v@), i as int),
        ),
{
    if i < parts.len() && parts[i].len() > 0 {
        Some(string_of(&parts[i]))
    } else {
        None
    }
}

/// Parse a GitHub repository reference into owner and repository.
pub fn parse_github_repository(source: &str) -> (r: (Option<String>, Option<String>))
    ensures
        (crate::app_config::opt_view(r.0), crate::app_config::opt_view(r.1)) == spec_parse_github_repository(source@),
{
    let t = trim_vec(&chars_of(source));
    let a = strip_suffix_all_vec(&t, &chars_of("/"));
    let b = strip_suffix_all_vec(&a, &chars_of(".git"));
    let n = replace_vec(&b, &chars_of("git@github.com:"), &chars_of("https://github.com/"));
    match after_first_vec(&n, &chars_of("github.com/")) {
        None => (None, None),
        Some(tail) => {
            let parts = split_char_vec(&tail, '/');
            assert(parts@.map_values(|v: Vec<char>| v@) =~= split_char(tail@, '/'));
            (piece_at(&parts, 0), piece_at(&parts, 1))
        },
    }
}

/// The `origin` URL found by scanning Git configuration lines from `i` on,
/// `in_origin` telling whether the current section is `[remote "origin"]`.
pub open spec fn scan_origin_url(ls: Seq<Seq<char>>, i: int, in_origin: bool) -> Option<Seq<char>>
    decreases ls.len() - i,
{
    if i < 0 || i >= ls.len() {
        None
    } else {
        let t = trim(ls[i]);
        if has_prefix(t, "[remote "@) {
            scan_origin_url(ls, i + 1, contains(t, "\"origin\""@))
        } else if in_origin && has_prefix(t, "url"@) {
            match after_first(t, "="@) {
                Some(v) => Some(trim(v)),
                None => None,
            }
        } else {
            scan_origin_url(ls, i + 1, in_origin)
        }
    }
}

/// The URL of the `origin` remote in the text of a `.git/config` file.
pub fn origin_url_from_git_config(config: &str) -> (r: Option<String>)
    ensures
        crate::app_config::opt_view(r) == scan_origin_url(lines(config@), 0, false),
{
    let ls = lines_vec(&chars_of(config));
    let ghost lv = lines(config@);
    let mut in_origin = false;
    let mut i: usize = 0;
    while i < ls.len()
        invariant
            i <= ls@.len() == lv.len(),
            lv == lines(config@),
            forall|k: int| 0 <= k < ls@.len() ==> #[trigger] ls@[k]@ == lv[k],
            scan_origin_url(lv, 0, false) == scan_origin_url(lv, i as int, in_origin),
        decreases ls.len() - i,
    {
        assert(ls@[i as int]@ == lv[i as int]);
        let t = trim_vec(&ls[i]);
        if starts_with_vec(&t, &chars_of("[remote ")) {
            in_origin = contains_vec(&t, &chars_of("\"origin\""));
        } else if in_origin && starts_with_vec(&t, &chars_of("url")) {
            return match after_first_vec(&t, &chars_of("=")) {
                Some(v) => Some(string_of(&trim_vec(&v))),
                None => None,
            };
        }
        i = i + 1;
    }
    None
}

/// The repository directory named by a `.git` file (`gitdir: <path>`).
pub open spec fn spec_gitdir_target(content: Seq<char>) -> Option<Seq<char>> {
    let t = trim(content);
    if has_prefix(t, "gitdir:"@) {
        Some(trim(t.skip(7)))
    } else {
        None
    }
}

/// Parse the target of a `.git` file.
pub fn gitdir_target(content: &str) -> (r: Option<String>)
    ensures
        crate::app_config::opt_view(r) == spec_gitdir_target(content@),
{
    let t = trim_vec(&chars_of(content));
    proof { reveal_strlit("gitdir:"); }
    if starts_with_vec(&t, &chars_of("gitdir:")) {
        let rest = slice_vec(&t, 7, t.len());
        assert(rest@ =~= trim(content@).skip(7));
        Some(string_of(&trim_vec(&rest)))
    } else {
        None
    }
}

/// The first `n` entries of `ps` that differ from `x`, in order.
pub open spec fn without(ps: Seq<Seq<char>>, x: Seq<char>, n: int) -> Seq<Seq<char>>
    decreases n,
{
    if n <= 0 {
        Seq::empty()
    } else if ps[n - 1] == x {
        without(ps, x, n - 1)
    } else {
        without(ps, x, n - 1).push(ps[n - 1])
    }
}

/// A recent-projects list after `path` was used: `path` first, the other
/// entries after it in their previous order, at most `limit` entries.
pub open spec fn spec_remember_recent(ps: Seq<Seq<char>>, path: Seq<char>, limit: nat) -> Seq<Seq<char>> {
    let full = seq![path] + without(ps, path, ps.len() as int);
    if full.len() <= limit { full } else { full.take(limit as int) }
}

/// Move `path` to the front of the recent-projects list, keeping at most
/// `limit` entries.
pub fn remember_recent(projects: &Vec<String>, path: &str, limit: usize) -> (r: Vec<String>)
    ensures
        views(r@) == spec_remember_recent(views(projects@), path@, limit as nat),
{
    let ghost pv = views(projects@);
    let mut out: Vec<String> = Vec::new();
    out.push(owned(path));
    let mut i: usize = 0;
    while i < projects.len()
        invariant
            i <= projects@.len(),
            pv == views(projects@),
            views(out@) == seq![path@] + without(pv, path@, i as int),
        decreases projects.len() - i,
    {
        assert(pv[i as int] == projects@[i as int]@);
        let ghost prev = views(out@);
        if !str_eq(projects[i].as_str(), path) {
            let c = projects[i].clone();
            out.push(c);
            assert(views(out@) =~= prev.push(pv[i as int]));
        }
        i = i + 1;
        assert(views(out@) =~= seq![path@] + without(pv, path@, i as int));
    }
    out.truncate(limit);
    assert(views(out@) =~= spec_remember_recent(pv, path@, limit as nat));
    out
}

proof fn lemma_without(ps: Seq<Seq<char>>, x: Seq<char>, n: int)
    requires
        0 <= n <= ps.len(),
    ensures
        forall|i: int| 0 <= i < without(ps, x, n).len() ==> #[trigger] without(ps, x, n)[i] != x
            && ps.contains(without(ps, x, n)[i]),
        forall|i: int| 0 <= i < n && ps[i] != x ==> without(ps, x, n).contains(#[trigger] ps[i]),
    decreases n,
{
    if n > 0 {
        lemma_without(ps, x, n - 1);
        let w = without(ps, x, n);
        let wd = without(ps, x, n - 1);
        assert forall|i: int| 0 <= i < w.len() implies #[trigger] w[i] != x && ps.contains(w[i]) by {
            if i < wd.len() {
                assert(w[i] == wd[i]);
            } else {
                assert(w[i] == ps[n - 1]);
            }
        }
        assert forall|i: int| 0 <= i < n && ps[i] != x implies w.contains(#[trigger] ps[i]) by {
            if i < n - 1 {
                let j = choose|j: int| 0 <= j < wd.len() && wd[j] == ps[i];
                assert(w[j] == wd[j]);
            } else {
                assert(w[w.len() - 1] == ps[i]);
            }
        }
    }
}

/// Using a project puts it first, exactly once, keeps at most `limit`
/// projects, and forgets no other project unless the limit is reached.
pub proof fn law_remembered_project_comes_first(ps: Seq<Seq<char>>, path: Seq<char>, limit: nat)
    requires
        limit >= 1,
    ensures
        spec_remember_recent(ps, path, limit)[0] == path,
        spec_remember_recent(ps, path, limit).len() <= limit,
        forall|i: int| 0 < i < spec_remember_recent(ps, path, limit).len() ==> #[trigger] spec_remember_recent(
            ps,
            path,
            limit,
        )[i] != path && ps.contains(spec_remember_recent(ps, path, limit)[i]),
        spec_remember_recent(ps, path, limit).len() < limit ==> forall|i: int|
            0 <= i < ps.len() ==> #[trigger] spec_remember_recent(ps, path, limit).contains(ps[i]),
{
    let n = ps.len() as int;
    lemma_without(ps, path, n);
    let w = without(ps, path, n);
    let full = seq![path] + w;
    let r = spec_remember_recent(ps, path, limit);
    assert(full[0] == path);
    assert forall|i: int| 0 < i < r.len() implies #[trigger] r[i] != path && ps.contains(r[i]) by {
        assert(r[i] == full[i]);
        assert(full[i] == w[i - 1]);
    }
    if r.len() < limit {
        assert(r == full);
        assert forall|i: int| 0 <= i < ps.len() implies #[trigger] r.contains(ps[i]) by {
            if ps[i] == path {
                assert(r[0] == ps[i]);
            } else {
                let j = choose|j: int| 0 <= j < w.len() && w[j] == ps[i];
                assert(r[j + 1] == ps[i]);
            }
        }
    }
}

/// The test that keeps every entry other than `x`.
pub open spec fn other_than(x: Seq<char>) -> spec_fn(Seq<char>) -> bool {
    |y: Seq<char>| y != x
}

proof fn lemma_without_is_filter(ps: Seq<Seq<char>>, x: Seq<char>, n: int)
    requires
        0 <= n <= ps.len(),
    ensures
        without(ps, x, n) == ps.take(n).filter(other_than(x)),
    decreases n,
{
    reveal(Seq::filter);
    if n > 0 {
        lemma_without_is_filter(ps, x, n - 1);
        assert(ps.take(n).drop_last() =~= ps.take(n - 1));
        assert(ps.take(n).last() == ps[n - 1]);
    } else {
        assert(ps.take(0) =~= Seq::<Seq<char>>::empty());
    }
}

/// Remembering a project gives the project, then the earlier list without
/// it, cut to the limit: newest first, each project once.
pub proof fn law_remembered_projects_filter_form(ps: Seq<Seq<char>>, path: Seq<char>, limit: nat)
    ensures
        ({
            let full = seq![path] + ps.filter(other_than(path));
            spec_remember_recent(ps, path, limit) == if full.len() <= limit { full } else { full.take(limit as int) }
        }),
{
    lemma_without_is_filter(ps, path, ps.len() as int);
    assert(ps.take(ps.len() as int) =~= ps);
}

/// The first of the first `n` skills whose id is `key`.
pub open spec fn first_with_id(skills: Seq<SkillRecord>, key: Seq<char>, n: int) -> Option<int>
    decreases n,
{
    if n <= 0 {
        None
    } else {
        match first_with_id(skills, key, n - 1) {
            Some(i) => Some(i),
            None => if skills[n - 1].id@ == key { Some(n - 1) } else { None },
        }
    }
}

/// The positions among the first `n` skills whose name equals `key` in
/// lowercase, in order.
pub open spec fn name_matches(skills: Seq<SkillRecord>, key: Seq<char>, n: int) -> Seq<int>
    decreases n,
{
    if n <= 0 {
        Seq::empty()
    } else if crate::text::lowercase(skills[n - 1].name@) == crate::text::lowercase(key) {
        name_matches(skills, key, n - 1).push(n - 1)
    } else {
        name_matches(skills, key, n - 1)
    }
}

/// Why a skill named on the command line could not be found.
#[derive(Debug, Clone)]
pub enum SkillLookupError {
    /// No skill has this id or name.
    NotFound,
    /// Several skills have this name; their positions.
    Ambiguous { matches: Vec<usize> },
}

/// The skill a user names: the one with that id, else the only one with
/// that name ignoring case.
pub fn resolve_skill(skills: &Vec<SkillRecord>, name_or_id: &str) -> (r: Result<usize, SkillLookupError>)
    ensures
        ({
            let n = skills@.len() as int;
            let by_id = first_with_id(skills@, name_or_id@, n);
            let by_name = name_matches(skills@, name_or_id@, n);
            match r {
                Ok(i) => match by_id {
                    Some(j) => i == j,
                    None => by_name == seq![i as int],
                },
                Err(SkillLookupError::NotFound) => by_id is None && by_name.len() == 0,
                Err(SkillLookupError::Ambiguous { matches }) => by_id is None && by_name.len() > 1
                    && matches@.len() == by_name.len() && forall|k: int|
                    0 <= k < by_name.len() ==> #[trigger] matches@[k] as int == by_name[k],
            }
        }),
{
    let ghost s = skills@;
    let mut i: usize = 0;
    while i < skills.len()
        invariant
            i <= s.len(),
            s == skills@,
            first_with_id(s, name_or_id@, i as int) is None,
        decreases skills.len() - i,
    {
        if str_eq(skills[i].id.as_str(), name_or_id) {
            proof {
                lemma_first_with_id_stays(s, name_or_id@, i + 1, s.len() as int);
            }
            return Ok(i);
        }
        i = i + 1;
    }
    let key = crate::text::lowercase_vec(&chars_of(name_or_id));
    let mut found: Vec<usize> = Vec::new();
    let mut k: usize = 0;
    while k < skills.len()
        invariant
            k <= s.len(),
            s == skills@,
            key@ == crate::text::lowercase(name_or_id@),
            found@.len() == name_matches(s, name_or_id@, k as int).len(),
            forall|m: int| 0 <= m < found@.len() ==> #[trigger] found@[m] as int == name_matches(s, name_or_id@, k as int)[m],
        decreases skills.len() - k,
    {
        let lower = crate::text::lowercase_vec(&chars_of(skills[k].name.as_str()));
        if vec_eq(&lower, &key) {
            let ghost before = found@;
            found.push(k);
            proof {
                assert forall|m: int| 0 <= m < found@.len() implies #[trigger] found@[m] as int == name_matches(
                    s,
                    name_or_id@,
                    k + 1,
                )[m] by {
                    if m < before.len() {
                        assert(found@[m] == before[m]);
                    }
                }
            }
        }
        k = k + 1;
    }
    if found.len() == 0 {
        Err(SkillLookupError::NotFound)
    } else if found.len() == 1 {
        assert(name_matches(s, name_or_id@, s.len() as int) =~= seq![found@[0] as int]);
        Ok(found[0])
    } else {
        Err(SkillLookupError::Ambiguous { matches: found })
    }
}

proof fn lemma_first_with_id_stays(skills: Seq<SkillRecord>, key: Seq<char>, n: int, m: int)
    requires
        0 <= n <= m,
        first_with_id(skills, key, n) is Some,
    ensures
        first_with_id(skills, key, m) == first_with_id(skills, key, n),
    decreases m - n,
{
    if m > n {
        lemma_first_with_id_stays(skills, key, n, m - 1);
    }
}

/// Whether an install source names a local directory rather than a Git
/// repository: not an `http(s)://` or `git@` URL, and not ending in `.git`.
pub open spec fn spec_is_local_source(url: Seq<char>) -> bool {
    !has_prefix(url, "http://"@) && !has_prefix(url, "https://"@) && !has_prefix(url, "git@"@)
        && !crate::text::has_suffix(url, ".git"@)
}

/// Whether an install source is a local directory.
pub fn is_local_source(url: &str) -> (r: bool)
    ensures
        r == spec_is_local_source(url@),
{
    let v = chars_of(url);
    !starts_with_vec(&v, &chars_of("http://")) && !starts_with_vec(&v, &chars_of("https://"))
        && !starts_with_vec(&v, &chars_of("git@")) && !crate::text::ends_with_vec(&v, &chars_of(".git"))
}

/// Why a skill cannot be updated from its source: only Git skills can.
pub open spec fn spec_update_refusal(name: Seq<char>, source_type: Seq<char>) -> Option<Seq<char>> {
    if source_type == "git"@ {
        None
    } else {
        Some("skill '"@ + name + "' is not a git skill (source_type="@ + source_type + "), cannot update from source"@)
    }
}

/// Refuse to update a skill that is not a Git skill.
pub fn check_updatable(record: &SkillRecord) -> (r: Result<(), String>)
    ensures
        match r {
            Ok(()) => spec_update_refusal(record.name@, record.source_type@) is None,
            Err(m) => spec_update_refusal(record.name@, record.source_type@) == Some(m@),
        },
{
    if str_eq(record.source_type.as_str(), "git") {
        return Ok(());
    }
    let a = concat_str("skill '", record.name.as_str());
    let b = concat_str(a.as_str(), "' is not a git skill (source_type=");
    let c = concat_str(b.as_str(), record.source_type.as_str());
    let m = concat_str(c.as_str(), "), cannot update from source");
    Err(m)
}

/// The positions, in order, of the Git skills among the first `n`.
pub open spec fn git_positions(skills: Seq<SkillRecord>, n: int) -> Seq<usize>
    decreases n,
{
    if n <= 0 {
        Seq::empty()
    } else if skills[n - 1].source_type@ == "git"@ {
        git_positions(skills, n - 1).push((n - 1) as usize)
    } else {
        git_positions(skills, n - 1)
    }
}

/// The skills an update of all skills covers: the Git skills, in order.
pub fn updatable_skills(skills: &Vec<SkillRecord>) -> (r: Vec<usize>)
    ensures
        r@ == git_positions(skills@, skills@.len() as int),
{
    let mut out: Vec<usize> = Vec::new();
    let mut i: usize = 0;
    while i < skills.len()
        invariant
            i <= skills@.len(),
            out@ == git_positions(skills@, i as int),
        decreases skills.len() - i,
    {
        if str_eq(skills[i].source_type.as_str(), "git") {
            out.push(i);
        }
        i = i + 1;
    }
    out
}

/// The author of this environment as the `gh` and `git` command line
/// tools report it.
#[derive(Debug, Clone, Default)]
pub struct DetectedAuthor {
    pub name: String,
    pub email: String,
    pub github_login: String,
    pub github_url: String,
    pub source: String,
    pub gh_authenticated: bool,
}

/// The contents of a [`DetectedAuthor`].
pub struct AuthorView {
    pub name: Seq<char>,
    pub email: Seq<char>,
    pub github_login: Seq<char>,
    pub github_url: Seq<char>,
    pub source: Seq<char>,
    pub gh_authenticated: bool,
}

impl View for DetectedAuthor {
    type V = AuthorView;

    open spec fn view(&self) -> AuthorView {
        AuthorView {
            name: self.name@,
            email: self.email@,
            github_login: self.github_login@,
            github_url: self.github_url@,
            source: self.source@,
            gh_authenticated: self.gh_authenticated,
        }
    }
}

pub open spec fn or_empty(o: Option<Seq<char>>) -> Seq<char> {
    match o {
        Some(v) => v,
        None => Seq::empty(),
    }
}

/// The author `gh api user` describes, when it names a login: the name
/// defaults to the login, the other fields to empty.
pub open spec fn spec_author_from_gh(
    login: Option<Seq<char>>,
    name: Option<Seq<char>>,
    email: Option<Seq<char>>,
    html_url: Option<Seq<char>>,
) -> Option<AuthorView> {
    let l = or_empty(login);
    if l.len() == 0 {
        None
    } else {
        Some(AuthorView {
            name: match name { Some(n) => n, None => l },
            email: or_empty(email),
            github_login: l,
            github_url: or_empty(html_url),
            source: "gh"@,
            gh_authenticated: true,
        })
    }
}

fn text_or_empty(o: Option<String>) -> (r: String)
    ensures
        r@ == or_empty(crate::app_config::opt_view(o)),
{
    match o {
        Some(v) => v,
        None => String::new(),
    }
}

/// The author `gh api user` describes (see [`spec_author_from_gh`]); the
/// fields are those of its reply, absent where the reply has none.
pub fn author_from_gh(
    login: Option<String>,
    name: Option<String>,
    email: Option<String>,
    html_url: Option<String>,
) -> (r: Option<DetectedAuthor>)
    ensures
        match r {
            Some(a) => spec_author_from_gh(
                crate::app_config::opt_view(login), crate::app_config::opt_view(name),
                crate::app_config::opt_view(email), crate::app_config::opt_view(html_url),
            ) == Some(a@),
            None => spec_author_from_gh(
                crate::app_config::opt_view(login), crate::app_config::opt_view(name),
                crate::app_config::opt_view(email), crate::app_config::opt_view(html_url),
            ) is None,
        },
{
    let l = text_or_empty(login);
    if chars_of(l.as_str()).len() == 0 {
        return None;
    }
    let n = match name {
        Some(n) => n,
        None => owned(l.as_str()),
    };
    Some(DetectedAuthor {
        name: n,
        email: text_or_empty(email),
        github_login: l,
        github_url: text_or_empty(html_url),
        source: owned("gh"),
        gh_authenticated: true,
    })
}

/// The author the global `git` configuration names, from `user.name` and
/// `user.email` (empty where unset).
pub fn author_from_git(name: Option<String>, email: Option<String>) -> (r: DetectedAuthor)
    ensures
        r@ == (AuthorView {
            name: or_empty(crate::app_config::opt_view(name)),
            email: or_empty(crate::app_config::opt_view(email)),
            github_login: Seq::empty(),
            github_url: Seq::empty(),
            source: "git"@,
            gh_authenticated: false,
        }),
{
    DetectedAuthor {
        name: text_or_empty(name),
        email: text_or_empty(email),
        github_login: String::new(),
        github_url: String::new(),
        source: owned("git"),
        gh_authenticated: false,
    }
}

/// Whether anything was detected: a name, a login or an email.
pub fn author_found(a: &DetectedAuthor) -> (r: bool)
    ensures
        r == (a.name@.len() > 0 || a.github_login@.len() > 0 || a.email@.len() > 0),
{
    chars_of(a.name.as_str()).len() > 0 || chars_of(a.github_login.as_str()).len() > 0
        || chars_of(a.email.as_str()).len() > 0
}

} // verus!
