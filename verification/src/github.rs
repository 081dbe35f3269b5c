//! What GitHub's answers mean: the status of a personal access token from
//! the reply to an authenticated request, and the owners of the
//! repositories a user can reach, counted and ordered.

use vstd::prelude::*;
use crate::app_config::opt_view;
use crate::order::{insert_sorted_unique, lemma_is_sorted_of, sorted_of, sorted_strict, views};
use crate::text::{chars_of, concat_str, owned, split_char, split_char_vec, str_eq, string_of, trim, trim_vec};

verus! {

/// The message when no GitHub token can be found.
pub const TOKEN_NOT_FOUND: &'static str = "GitHub token not found. Set one with `skilldo github token-set <token>` or authenticate the `gh` CLI with `gh auth login`";

/// The first candidate token that is not blank, trimmed.
pub open spec fn spec_first_token(c: Seq<Option<Seq<char>>>) -> Option<Seq<char>>
    decreases c.len(),
{
    if c.len() == 0 {
        None
    } else if c[0] is Some && trim(c[0].unwrap()).len() > 0 {
        Some(trim(c[0].unwrap()))
    } else {
        spec_first_token(c.drop_first())
    }
}

pub open spec fn candidate_views(c: Seq<Option<String>>) -> Seq<Option<Seq<char>>> {
    c.map_values(|o: Option<String>| opt_view(o))
}

/// The token a GitHub request uses, from candidates in order of preference
/// (one given for the call, the one stored in the settings, the one the
/// `gh` command line tool is logged in with): the first that is not blank,
/// trimmed.
pub fn first_token(candidates: &Vec<Option<String>>) -> (r: Option<String>)
    ensures
        opt_view(r) == spec_first_token(candidate_views(candidates@)),
{
    let ghost cv = candidate_views(candidates@);
    let mut i: usize = 0;
    assert(cv.skip(0) =~= cv);
    while i < candidates.len()
        invariant
            i <= candidates@.len(),
            cv == candidate_views(candidates@),
            spec_first_token(cv) == spec_first_token(cv.skip(i as int)),
        decreases candidates.len() - i,
    {
        let ghost rest = cv.skip(i as int);
        assert(rest.drop_first() =~= cv.skip(i + 1));
        assert(rest[0] == cv[i as int]);
        match &candidates[i] {
            Some(t) => {
                let tt = crate::text::trim_str(t.as_str());
                if chars_of(tt.as_str()).len() > 0 {
                    return Some(tt);
                }
            },
            None => {},
        }
        i = i + 1;
    }
    None
}

/// The result of validating a GitHub personal access token.
#[derive(Debug, Clone)]
pub struct GithubTokenStatus {
    pub valid: bool,
    pub login: Option<String>,
    pub scopes: Vec<String>,
    pub error: Option<String>,
}

/// The trimmed non-blank pieces among the first `n`, in order.
pub open spec fn trimmed_pieces(ps: Seq<Seq<char>>, n: int) -> Seq<Seq<char>>
    decreases n,
{
    if n <= 0 {
        Seq::empty()
    } else if trim(ps[n - 1]).len() > 0 {
        trimmed_pieces(ps, n - 1).push(trim(ps[n - 1]))
    } else {
        trimmed_pieces(ps, n - 1)
    }
}

/// The scopes an `x-oauth-scopes` header lists: its comma-separated
/// pieces, trimmed, blank ones dropped.
pub open spec fn spec_scopes(header: Seq<char>) -> Seq<Seq<char>> {
    let ps = split_char(header, ',');
    trimmed_pieces(ps, ps.len() as int)
}

/// Read the scopes of an `x-oauth-scopes` header.
pub fn parse_scopes(header: &str) -> (r: Vec<String>)
    ensures
        views(r@) == spec_scopes(header@),
{
    let ps = split_char_vec(&chars_of(header), ',');
    let ghost sp = split_char(header@, ',');
    let mut out: Vec<String> = Vec::new();
    let mut i: usize = 0;
    while i < ps.len()
        invariant
            i <= ps@.len() == sp.len(),
            sp == split_char(header@, ','),
            forall|k: int| 0 <= k < ps@.len() ==> #[trigger] ps@[k]@ == sp[k],
            views(out@) == trimmed_pieces(sp, i as int),
        decreases ps.len() - i,
    {
        assert(ps@[i as int]@ == sp[i as int]);
        let t = trim_vec(&ps[i]);
        if t.len() > 0 {
            let ghost before = views(out@);
            out.push(string_of(&t));
            assert(views(out@) =~= before.push(trim(sp[i as int])));
        }
        i = i + 1;
    }
    out
}

/// The status of an empty token, which is not sent.
pub fn empty_token_status() -> (r: GithubTokenStatus)
    ensures
        !r.valid,
        r.login is None,
        r.scopes@.len() == 0,
        opt_view(r.error) == Some("token 为空"@),
{
    GithubTokenStatus { valid: false, login: None, scopes: Vec::new(), error: Some(owned("token 为空")) }
}

/// The status of a token whose request could not be sent.
pub fn network_error_status(error: &str) -> (r: GithubTokenStatus)
    ensures
        !r.valid,
        r.login is None,
        r.scopes@.len() == 0,
        opt_view(r.error) == Some("网络错误: "@ + error@),
{
    GithubTokenStatus { valid: false, login: None, scopes: Vec::new(), error: Some(concat_str("网络错误: ", error)) }
}

/// What GitHub's reply says of a token: refused on `401` or `403`, valid on
/// a success (with the login the reply names), otherwise an error.
/// `status_text` is the status as written for people, `scopes` those the
/// reply lists.
pub fn token_status_from_reply(code: u16, status_text: &str, scopes: Vec<String>, login: Option<String>) -> (r: GithubTokenStatus)
    ensures
        r.scopes == scopes,
        (code == 401 || code == 403) ==> !r.valid && r.login is None && opt_view(r.error) == Some(
            "GitHub 拒绝该 token（HTTP "@ + status_text@ + "）"@,
        ),
        !(code == 401 || code == 403) && 200 <= code < 300 ==> r.valid && r.login == login && r.error is None,
        !(code == 401 || code == 403) && !(200 <= code < 300) ==> !r.valid && r.login is None && opt_view(r.error)
            == Some("GitHub 返回 HTTP "@ + status_text@),
{
    if code == 401 || code == 403 {
        let mut v = chars_of("GitHub 拒绝该 token（HTTP ");
        crate::text::extend_vec(&mut v, &chars_of(status_text));
        crate::text::extend_vec(&mut v, &chars_of("）"));
        GithubTokenStatus { valid: false, login: None, scopes, error: Some(string_of(&v)) }
    } else if 200 <= code && code < 300 {
        GithubTokenStatus { valid: true, login, scopes, error: None }
    } else {
        GithubTokenStatus { valid: false, login: None, scopes, error: Some(concat_str("GitHub 返回 HTTP ", status_text)) }
    }
}

/// The owner of one repository the user can reach, as GitHub lists it.
#[derive(Debug, Clone)]
pub struct RepoOwner {
    pub login: Option<String>,
    pub avatar_url: Option<String>,
}

/// An owner or organization among the user's repositories.
#[derive(Debug, Clone)]
pub struct GithubOwnerEntry {
    pub login: String,
    pub repo_count: usize,
    pub avatar_url: Option<String>,
}

/// The contents of a [`GithubOwnerEntry`].
pub struct OwnerV {
    pub login: Seq<char>,
    pub count: nat,
    pub avatar: Option<Seq<char>>,
}

pub open spec fn owner_view(e: GithubOwnerEntry) -> OwnerV {
    OwnerV { login: e.login@, count: e.repo_count as nat, avatar: opt_view(e.avatar_url) }
}

pub open spec fn owner_views(s: Seq<GithubOwnerEntry>) -> Seq<OwnerV> {
    s.map_values(|e: GithubOwnerEntry| owner_view(e))
}

/// The owner logins named among the first `n` repositories.
pub open spec fn owner_logins(repos: Seq<RepoOwner>, n: int) -> Set<Seq<char>> {
    Set::new(|l: Seq<char>| exists|i: int| 0 <= i < n && #[trigger] opt_view(repos[i].login) == Some(l))
}

/// How many of the first `n` repositories the owner `l` has.
pub open spec fn repo_count(repos: Seq<RepoOwner>, l: Seq<char>, n: int) -> nat
    decreases n,
{
    if n <= 0 {
        0
    } else {
        repo_count(repos, l, n - 1) + if opt_view(repos[n - 1].login) == Some(l) { 1nat } else { 0nat }
    }
}

/// The avatar listed with the first of the first `n` repositories of `l`
/// (`Some(None)` when that repository lists none).
pub open spec fn first_avatar(repos: Seq<RepoOwner>, l: Seq<char>, n: int) -> Option<Option<Seq<char>>>
    decreases n,
{
    if n <= 0 {
        None
    } else {
        match first_avatar(repos, l, n - 1) {
            Some(a) => Some(a),
            None => if opt_view(repos[n - 1].login) == Some(l) {
                Some(opt_view(repos[n - 1].avatar_url))
            } else {
                None
            },
        }
    }
}

/// The entry of owner `l`.
pub open spec fn owner_entry(repos: Seq<RepoOwner>, l: Seq<char>) -> OwnerV {
    let n = repos.len() as int;
    OwnerV {
        login: l,
        count: repo_count(repos, l, n),
        avatar: match first_avatar(repos, l, n) {
            Some(a) => a,
            None => None,
        },
    }
}

/// Insert an entry after every entry with at least as many repositories:
/// the step of a stable sort by descending count.
pub open spec fn insert_by_count(s: Seq<OwnerV>, x: OwnerV) -> Seq<OwnerV>
    decreases s.len(),
{
    if s.len() == 0 {
        seq![x]
    } else if x.count > s.last().count {
        insert_by_count(s.drop_last(), x).push(s.last())
    } else {
        s.push(x)
    }
}

/// Entries stably sorted by descending count.
pub open spec fn sort_by_count(s: Seq<OwnerV>) -> Seq<OwnerV>
    decreases s.len(),
{
    if s.len() == 0 {
        Seq::empty()
    } else {
        insert_by_count(sort_by_count(s.drop_last()), s.last())
    }
}

/// The owners of the repositories, each once with how many repositories
/// it has and its first avatar, most repositories first and otherwise by
/// login.
pub open spec fn spec_tally_owners(repos: Seq<RepoOwner>) -> Seq<OwnerV> {
    sort_by_count(
        sorted_of(owner_logins(repos, repos.len() as int)).map_values(|l: Seq<char>| owner_entry(repos, l)),
    )
}

proof fn lemma_insert_by_count(s: Seq<OwnerV>, x: OwnerV, j: int)
    requires
        0 <= j <= s.len(),
        forall|m: int| j <= m < s.len() ==> x.count > (#[trigger] s[m]).count,
        j == 0 || !(x.count > s[j - 1].count),
    ensures
        insert_by_count(s, x) == s.take(j).push(x) + s.skip(j),
    decreases s.len(),
{
    if s.len() == 0 {
        assert(s.take(j).push(x) + s.skip(j) =~= seq![x]);
    } else if j == s.len() {
        assert(s.take(j).push(x) + s.skip(j) =~= s.push(x));
    } else {
        let init = s.drop_last();
        assert(x.count > s[s.len() - 1].count);
        assert forall|m: int| j <= m < init.len() implies x.count > (#[trigger] init[m]).count by {
            assert(init[m] == s[m]);
        }
        if j > 0 {
            assert(init[j - 1] == s[j - 1]);
        }
        lemma_insert_by_count(init, x, j);
        assert(init.take(j).push(x) + init.skip(j) + seq![s.last()] =~= s.take(j).push(x) + s.skip(j));
    }
}

fn count_and_avatar(repos: &Vec<RepoOwner>, login: &str) -> (r: (usize, Option<String>))
    ensures
        r.0 as nat == repo_count(repos@, login@, repos@.len() as int),
        opt_view(r.1) == owner_entry(repos@, login@).avatar,
{
    let ghost s = repos@;
    let mut count: usize = 0;
    let mut avatar: Option<Option<String>> = None;
    let mut i: usize = 0;
    while i < repos.len()
        invariant
            i <= s.len(),
            s == repos@,
            count as nat == repo_count(s, login@, i as int),
            count <= i,
            match avatar {
                Some(a) => first_avatar(s, login@, i as int) == Some(opt_view(a)),
                None => first_avatar(s, login@, i as int) is None,
            },
        decreases repos.len() - i,
    {
        let hit = match &repos[i].login {
            Some(l) => str_eq(l.as_str(), login),
            None => false,
        };
        if hit {
            count = count + 1;
            if avatar.is_none() {
                avatar = Some(crate::text::copy_opt(&repos[i].avatar_url));
            }
        }
        i = i + 1;
    }
    let flat = match avatar {
        Some(a) => a,
        None => None,
    };
    (count, flat)
}

/// Count the repositories of each owner and order the owners by how many
/// repositories they have, most first; owners with as many keep the order
/// of their logins.
pub fn tally_owners(repos: &Vec<RepoOwner>) -> (r: Vec<GithubOwnerEntry>)
    ensures
        owner_views(r@) == spec_tally_owners(repos@),
{
    let ghost s = repos@;
    let mut logins: Vec<String> = Vec::new();
    let mut i: usize = 0;
    assert(views(logins@).to_set() =~= owner_logins(s, 0));
    while i < repos.len()
        invariant
            i <= s.len(),
            s == repos@,
            sorted_strict(views(logins@)),
            views(logins@).to_set() == owner_logins(s, i as int),
        decreases repos.len() - i,
    {
        match &repos[i].login {
            Some(l) => {
                insert_sorted_unique(&mut logins, l.clone());
                assert(views(logins@).to_set() =~= owner_logins(s, i + 1)) by {
                    assert forall|x: Seq<char>| owner_logins(s, i + 1).contains(x) implies owner_logins(s, i as int).insert(
                        l@,
                    ).contains(x) by {
                        let m = choose|m: int| 0 <= m < i + 1 && #[trigger] opt_view(s[m].login) == Some(x);
                        if m < i {
                            assert(owner_logins(s, i as int).contains(x));
                        }
                    }
                    assert forall|x: Seq<char>| owner_logins(s, i as int).insert(l@).contains(x) implies owner_logins(
                        s,
                        i + 1,
                    ).contains(x) by {
                        if x == l@ {
                            assert(opt_view(s[i as int].login) == Some(x));
                        } else {
                            let m = choose|m: int| 0 <= m < i && #[trigger] opt_view(s[m].login) == Some(x);
                            assert(0 <= m < i + 1);
                        }
                    }
                }
            },
            None => {
                assert(views(logins@).to_set() =~= owner_logins(s, i + 1)) by {
                    assert forall|x: Seq<char>| owner_logins(s, i + 1).contains(x) implies owner_logins(
                        s,
                        i as int,
                    ).contains(x) by {
                        let m = choose|m: int| 0 <= m < i + 1 && #[trigger] opt_view(s[m].login) == Some(x);
                        assert(m != i);
                    }
                    assert forall|x: Seq<char>| owner_logins(s, i as int).contains(x) implies owner_logins(
                        s,
                        i + 1,
                    ).contains(x) by {
                        let m = choose|m: int| 0 <= m < i && #[trigger] opt_view(s[m].login) == Some(x);
                        assert(0 <= m < i + 1);
                    }
                }
            },
        }
        i = i + 1;
    }
    let ghost lv = views(logins@);
    proof {
        lemma_is_sorted_of(lv);
    }
    assert(lv == sorted_of(owner_logins(s, s.len() as int)));
    let ghost entries = lv.map_values(|l: Seq<char>| owner_entry(s, l));
    let mut out: Vec<GithubOwnerEntry> = Vec::new();
    let mut k: usize = 0;
    assert(entries.take(0) =~= Seq::<OwnerV>::empty());
    while k < logins.len()
        invariant
            k <= lv.len(),
            lv == views(logins@),
            s == repos@,
            entries == lv.map_values(|l: Seq<char>| owner_entry(s, l)),
            owner_views(out@) == sort_by_count(entries.take(k as int)),
        decreases logins.len() - k,
    {
        let (count, avatar) = count_and_avatar(repos, logins[k].as_str());
        let x = GithubOwnerEntry { login: logins[k].clone(), repo_count: count, avatar_url: avatar };
        let ghost sv = owner_views(out@);
        assert(owner_view(x) == entries[k as int]);
        let mut j: usize = out.len();
        while j > 0 && count > out[j - 1].repo_count
            invariant
                j <= out@.len(),
                sv == owner_views(out@),
                forall|m: int| j <= m < out@.len() ==> count > (#[trigger] out@[m]).repo_count,
            decreases j,
        {
            j = j - 1;
        }
        proof {
            assert forall|m: int| j <= m < sv.len() implies owner_view(x).count > (#[trigger] sv[m]).count by {
                assert(sv[m] == owner_view(out@[m]));
            }
            if j > 0 {
                assert(sv[j - 1] == owner_view(out@[j - 1]));
            }
            lemma_insert_by_count(sv, owner_view(x), j as int);
            assert(entries.take(k + 1).drop_last() =~= entries.take(k as int));
            assert(entries.take(k + 1).last() == entries[k as int]);
        }
        out.insert(j, x);
        assert(owner_views(out@) =~= sv.take(j as int).push(owner_view(x)) + sv.skip(j as int));
        k = k + 1;
    }
    assert(entries.take(lv.len() as int) =~= entries);
    out
}

} // verus!
