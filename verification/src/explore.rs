//! Explore-source configuration and the normalization of skills gathered
//! from those sources.

use vstd::prelude::*;
use crate::text::{
    before_first, before_first_vec, chars_of, contains, contains_vec, has_prefix, is_blank,
    lowercase, lowercase_vec, owned, replace_all, replace_vec, split_char, split_char_vec,
    starts_with_vec, str_eq, string_of, strip_suffix_all, strip_suffix_all_vec, trim, trim_vec,
    extend_vec, concat_str,
};

verus! {

/// The settings key of the configured explore sources.
pub const EXPLORE_SOURCES_KEY: &'static str = "explore_sources_v1";

/// The settings key under which the last body fetched from a source is
/// cached.
pub fn source_cache_key(source_id: &str) -> (r: String)
    ensures
        r@ == "explore_source_cache_"@ + source_id@,
{
    concat_str("explore_source_cache_", source_id)
}

/// What `char::is_alphanumeric` says of a character: whether it is a
/// Unicode letter or number.
pub uninterp spec fn alphanumeric(c: char) -> bool;

/// `char::is_alphanumeric`. Its result is named, not stated: it follows the
/// Unicode tables of the standard library.
#[verifier::external_body]
fn char_is_alphanumeric(c: char) -> (r: bool)
    ensures
        r == alphanumeric(c),
{
    c.is_alphanumeric()
}

/// A character of a source id as it may stand in a directory name: letters,
/// numbers, `-` and `_` are kept, anything else becomes `_`.
pub open spec fn id_char(c: char) -> char {
    if alphanumeric(c) || c == '-' || c == '_' {
        c
    } else {
        '_'
    }
}

/// A source id made safe to use as a directory name in the local cache
/// (see [`id_char`]).
pub fn sanitize_id(id: &str) -> (r: String)
    ensures
        r@ == id@.map_values(|c: char| id_char(c)),
{
    let v = chars_of(id);
    let mut out: Vec<char> = Vec::new();
    let mut i: usize = 0;
    while i < v.len()
        invariant
            i <= v@.len(),
            v@ == id@,
            out@ == id@.take(i as int).map_values(|c: char| id_char(c)),
        decreases v.len() - i,
    {
        let c = v[i];
        let keep = char_is_alphanumeric(c) || c == '-' || c == '_';
        out.push(if keep { c } else { '_' });
        i = i + 1;
        assert(out@ =~= id@.take(i as int).map_values(|c: char| id_char(c)));
    }
    assert(id@.take(id@.len() as int) =~= id@);
    string_of(&out)
}

/// One configured source of discoverable skills.
#[derive(Debug, Clone)]
pub struct ExploreSourceConfig {
    pub id: String,
    pub name: String,
    pub kind: String,
    pub endpoint: String,
    pub enabled: bool,
    pub builtin: bool,
}

/// The contents of an [`ExploreSourceConfig`].
pub struct SourceView {
    pub id: Seq<char>,
    pub name: Seq<char>,
    pub kind: Seq<char>,
    pub endpoint: Seq<char>,
    pub enabled: bool,
    pub builtin: bool,
}

impl View for ExploreSourceConfig {
    type V = SourceView;

    open spec fn view(&self) -> SourceView {
        SourceView {
            id: self.id@,
            name: self.name@,
            kind: self.kind@,
            endpoint: self.endpoint@,
            enabled: self.enabled,
            builtin: self.builtin,
        }
    }
}

/// A skill listed by an explore source.
#[derive(Debug, Clone)]
pub struct ExploreSkill {
    pub id: String,
    pub name: String,
    pub summary: String,
    pub source_url: String,
    pub source_name: String,
    pub source_kind: String,
    pub downloads: u64,
    pub stars: u64,
}

/// Skills gathered from all enabled sources plus one message per source
/// that failed to load.
#[derive(Debug, Clone)]
pub struct ExploreFetchResult {
    pub skills: Vec<ExploreSkill>,
    pub errors: Vec<String>,
}

/// A search hit from the skills.sh API.
#[derive(Debug, Clone)]
pub struct OnlineSkillResult {
    pub name: String,
    pub installs: u64,
    pub source: String,
    pub source_url: String,
}

/// The URL of the featured-skills index.
pub open spec fn featured_url() -> Seq<char> {
    crate::config::FEATURED_SKILLS_URL@
}

pub open spec fn src_view(
    id: Seq<char>,
    name: Seq<char>,
    kind: Seq<char>,
    endpoint: Seq<char>,
    enabled: bool,
    builtin: bool,
) -> SourceView {
    SourceView { id, name, kind, endpoint, enabled, builtin }
}

/// The built-in sources, in display order.
pub open spec fn default_source_views() -> Seq<SourceView> {
    seq![
        src_view("official-featured"@, "Skills Hub Official"@, "featured_json"@, featured_url(), true, true),
        src_view("skills-sh"@, "skills.sh"@, "skills_sh"@, "https://skills.sh"@, true, true),
        src_view("prompthub-json"@, "PromptHub JSON"@, "json_index"@, "https://prompthub.click/skills.json"@, false, true),
        src_view("private-json-index"@, "Private JSON Index"@, "json_index"@, Seq::empty(), false, false),
    ]
}

fn make_source(id: &str, name: &str, kind: &str, endpoint: &str, enabled: bool, builtin: bool) -> (r: ExploreSourceConfig)
    ensures
        r@ == src_view(id@, name@, kind@, endpoint@, enabled, builtin),
{
    ExploreSourceConfig {
        id: owned(id),
        name: owned(name),
        kind: owned(kind),
        endpoint: owned(endpoint),
        enabled,
        builtin,
    }
}

/// The built-in explore sources.
pub fn default_sources() -> (r: Vec<ExploreSourceConfig>)
    ensures
        r@.len() == 4,
        forall|i: int| 0 <= i < 4 ==> #[trigger] r@[i]@ == default_source_views()[i],
{
    let mut r: Vec<ExploreSourceConfig> = Vec::new();
    r.push(make_source("official-featured", "Skills Hub Official", "featured_json", crate::config::FEATURED_SKILLS_URL, true, true));
    r.push(make_source("skills-sh", "skills.sh", "skills_sh", "https://skills.sh", true, true));
    r.push(make_source("prompthub-json", "PromptHub JSON", "json_index", "https://prompthub.click/skills.json", false, true));
    r.push(make_source("private-json-index", "Private JSON Index", "json_index", "", false, false));
    proof {
        reveal_strlit("");
        assert(""@ =~= Seq::<char>::empty());
        assert(r@[0]@ == default_source_views()[0]);
        assert(r@[1]@ == default_source_views()[1]);
        assert(r@[2]@ == default_source_views()[2]);
        assert(r@[3]@ == default_source_views()[3]);
    }
    r
}

/// The last saved source whose id is `id`.
pub open spec fn last_by_id(saved: Seq<SourceView>, id: Seq<char>) -> Option<SourceView>
    decreases saved.len(),
{
    if saved.len() == 0 {
        None
    } else if saved.last().id == id {
        Some(saved.last())
    } else {
        last_by_id(saved.drop_last(), id)
    }
}

/// A built-in source overlaid with the user's saved copy of it: the saved
/// fields win, except `builtin` and blank `kind` / `name`.
pub open spec fn overlay_default(d: SourceView, saved: Seq<SourceView>) -> SourceView {
    match last_by_id(saved, d.id) {
        Some(s) => SourceView {
            builtin: d.builtin,
            kind: if trim(s.kind).len() == 0 { d.kind } else { s.kind },
            name: if trim(s.name).len() == 0 { d.name } else { s.name },
            ..s
        },
        None => d,
    }
}

pub open spec fn is_default_id(id: Seq<char>) -> bool {
    exists|i: int| 0 <= i < 4 && default_source_views()[i].id == id
}

/// Whether `saved[i]` is the first saved source carrying its id.
pub open spec fn first_of_id(saved: Seq<SourceView>, i: int) -> bool {
    forall|j: int| 0 <= j < i ==> saved[j].id != saved[i].id
}

/// User-defined sources among the first `n` saved ones: one per id (the
/// last copy saved), ordered by first appearance, without built-in ids or
/// blank ids.
pub open spec fn custom_sources(saved: Seq<SourceView>, n: int) -> Seq<SourceView>
    decreases n,
{
    if n <= 0 {
        Seq::empty()
    } else {
        let i = n - 1;
        let s = saved[i];
        if first_of_id(saved, i) && !is_default_id(s.id) && trim(s.id).len() > 0 {
            custom_sources(saved, n - 1).push(last_by_id(saved, s.id).unwrap())
        } else {
            custom_sources(saved, n - 1)
        }
    }
}

/// The first `n` built-in sources, each overlaid with its saved copy.
pub open spec fn overlaid_defaults(saved: Seq<SourceView>, n: int) -> Seq<SourceView>
    decreases n,
{
    if n <= 0 {
        Seq::empty()
    } else {
        overlaid_defaults(saved, n - 1).push(overlay_default(default_source_views()[n - 1], saved))
    }
}

/// The effective source list for a saved configuration.
pub open spec fn merged_sources(saved: Seq<SourceView>) -> Seq<SourceView> {
    overlaid_defaults(saved, 4) + custom_sources(saved, saved.len() as int)
}

pub open spec fn source_views(v: Seq<ExploreSourceConfig>) -> Seq<SourceView> {
    v.map_values(|s: ExploreSourceConfig| s@)
}

fn copy_source(s: &ExploreSourceConfig) -> (r: ExploreSourceConfig)
    ensures
        r@ == s@,
{
    ExploreSourceConfig {
        id: s.id.clone(),
        name: s.name.clone(),
        kind: s.kind.clone(),
        endpoint: s.endpoint.clone(),
        enabled: s.enabled,
        builtin: s.builtin,
    }
}

/// Index of the last saved source with id `id`.
fn find_last_by_id(saved: &Vec<ExploreSourceConfig>, id: &str) -> (r: Option<usize>)
    ensures
        match r {
            Some(k) => k < saved@.len() && last_by_id(source_views(saved@), id@) == Some(saved@[k as int]@),
            None => last_by_id(source_views(saved@), id@) is None,
        },
{
    let mut j: usize = saved.len();
    let ghost sv = source_views(saved@);
    assert(sv.subrange(0, j as int) =~= sv);
    while j > 0
        invariant
            j <= saved@.len(),
            sv == source_views(saved@),
            last_by_id(sv, id@) == last_by_id(sv.subrange(0, j as int), id@),
        decreases j,
    {
        let ghost pre = sv.subrange(0, j as int);
        assert(pre.drop_last() =~= sv.subrange(0, j - 1));
        if str_eq(saved[j - 1].id.as_str(), id) {
            return Some(j - 1);
        }
        j = j - 1;
    }
    None
}

fn is_default_id_exec(id: &str) -> (r: bool)
    ensures
        r == is_default_id(id@),
{
    let d = default_sources();
    let mut i: usize = 0;
    while i < 4
        invariant
            i <= 4,
            d@.len() == 4,
            forall|k: int| 0 <= k < 4 ==> #[trigger] d@[k]@ == default_source_views()[k],
            forall|k: int| 0 <= k < i ==> default_source_views()[k].id != id@,
        decreases 4 - i,
    {
        assert(d@[i as int]@ == default_source_views()[i as int]);
        if str_eq(d[i].id.as_str(), id) {
            assert(default_source_views()[i as int].id == id@);
            return true;
        }
        i = i + 1;
    }
    false
}

/// The message for a source id that is not configured.
pub open spec fn source_not_found(id: Seq<char>) -> Seq<char> {
    "未找到源: "@ + id
}

/// The position of the first source with this id, if any.
pub open spec fn first_with_id(v: Seq<SourceView>, id: Seq<char>) -> Option<int>
    decreases v.len(),
{
    if v.len() == 0 {
        None
    } else {
        match first_with_id(v.drop_last(), id) {
            Some(i) => Some(i),
            None => if v.last().id == id { Some(v.len() - 1) } else { None },
        }
    }
}

proof fn lemma_first_with_id(v: Seq<SourceView>, id: Seq<char>)
    ensures
        match first_with_id(v, id) {
            Some(i) => 0 <= i < v.len() && v[i].id == id && forall|j: int| 0 <= j < i ==> v[j].id != id,
            None => forall|j: int| 0 <= j < v.len() ==> v[j].id != id,
        },
    decreases v.len(),
{
    if v.len() > 0 {
        let d = v.drop_last();
        lemma_first_with_id(d, id);
        assert forall|j: int| 0 <= j < d.len() implies d[j] == v[j] by {}
    }
}

/// Changes to one source's fields; absent fields stay as they are.
#[derive(Debug, Clone, Default)]
pub struct SourceEdit {
    pub name: Option<String>,
    pub kind: Option<String>,
    pub endpoint: Option<String>,
    pub enabled: Option<bool>,
}

/// A source with an edit applied.
pub open spec fn edited(s: SourceView, e: SourceEdit) -> SourceView {
    SourceView {
        id: s.id,
        name: match e.name { Some(v) => v@, None => s.name },
        kind: match e.kind { Some(v) => v@, None => s.kind },
        endpoint: match e.endpoint { Some(v) => v@, None => s.endpoint },
        enabled: match e.enabled { Some(v) => v, None => s.enabled },
        builtin: s.builtin,
    }
}

/// Apply an edit to the first source with id `id`; refused, with nothing
/// changed, when no source has that id.
pub fn edit_source(sources: &mut Vec<ExploreSourceConfig>, id: &str, edit: SourceEdit) -> (r: Result<(), String>)
    ensures
        match first_with_id(source_views(old(sources)@), id@) {
            Some(i) => r is Ok && source_views(final(sources)@)
                == source_views(old(sources)@).update(i, edited(source_views(old(sources)@)[i], edit)),
            None => r matches Err(m) && m@ == source_not_found(id@) && final(sources)@ == old(sources)@,
        },
{
    let ghost before = source_views(sources@);
    proof {
        lemma_first_with_id(before, id@);
    }
    let mut i: usize = 0;
    while i < sources.len()
        invariant
            i <= sources@.len(),
            sources@ == old(sources)@,
            before == source_views(sources@),
            forall|j: int| 0 <= j < i ==> before[j].id != id@,
        decreases sources.len() - i,
    {
        if str_eq(sources[i].id.as_str(), id) {
            proof {
                lemma_first_with_id(before, id@);
                assert(before[i as int].id == id@);
                assert(first_with_id(before, id@) == Some(i as int)) by {
                    let f = first_with_id(before, id@);
                    if f is None {
                        assert(before[i as int].id != id@);
                    } else {
                        let k = f.unwrap();
                        if k < i {
                            assert(before[k].id != id@);
                        } else if k > i {
                            assert(before[i as int].id != id@);
                        }
                    }
                }
            }
            let old_item = &sources[i];
            let item = ExploreSourceConfig {
                id: old_item.id.clone(),
                name: match &edit.name { Some(v) => v.clone(), None => old_item.name.clone() },
                kind: match &edit.kind { Some(v) => v.clone(), None => old_item.kind.clone() },
                endpoint: match &edit.endpoint { Some(v) => v.clone(), None => old_item.endpoint.clone() },
                enabled: match edit.enabled { Some(v) => v, None => old_item.enabled },
                builtin: old_item.builtin,
            };
            assert(item@ == edited(before[i as int], edit));
            sources.set(i, item);
            assert(source_views(sources@) =~= before.update(i as int, edited(before[i as int], edit)));
            return Ok(());
        }
        i = i + 1;
    }
    Err(concat_str("未找到源: ", id))
}

/// The sources whose id is not `id`, in order.
pub open spec fn without_id(v: Seq<SourceView>, id: Seq<char>) -> Seq<SourceView>
    decreases v.len(),
{
    if v.len() == 0 {
        Seq::empty()
    } else {
        let rest = without_id(v.drop_last(), id);
        if v.last().id == id { rest } else { rest.push(v.last()) }
    }
}

/// Remove every source with id `id`; refused, with nothing changed, when
/// no source has that id.
pub fn remove_source(sources: &mut Vec<ExploreSourceConfig>, id: &str) -> (r: Result<(), String>)
    ensures
        source_views(final(sources)@) == without_id(source_views(old(sources)@), id@),
        match r {
            Ok(()) => first_with_id(source_views(old(sources)@), id@) is Some,
            Err(m) => m@ == source_not_found(id@) && first_with_id(source_views(old(sources)@), id@) is None,
        },
{
    let ghost before = source_views(sources@);
    proof {
        lemma_first_with_id(before, id@);
    }
    let mut kept: Vec<ExploreSourceConfig> = Vec::new();
    let mut found = false;
    let mut i: usize = 0;
    while i < sources.len()
        invariant
            i <= sources@.len(),
            before == source_views(sources@),
            source_views(kept@) == without_id(before.take(i as int), id@),
            found == exists|j: int| 0 <= j < i && before[j].id == id@,
        decreases sources.len() - i,
    {
        let ghost t = before.take(i + 1);
        assert(t.drop_last() =~= before.take(i as int));
        assert(t.last() == before[i as int]);
        if str_eq(sources[i].id.as_str(), id) {
            found = true;
        } else {
            let ghost k0 = source_views(kept@);
            let c = copy_source(&sources[i]);
            kept.push(c);
            assert(source_views(kept@) =~= k0.push(before[i as int]));
        }
        i = i + 1;
    }
    assert(before.take(before.len() as int) =~= before);
    *sources = kept;
    if found {
        Ok(())
    } else {
        Err(concat_str("未找到源: ", id))
    }
}

/// A source added from the command line, with an id made from the time of
/// its creation in seconds.
pub fn new_cli_source(name: &str, kind: &str, endpoint: &str, enabled: bool, secs: u64) -> (r: ExploreSourceConfig)
    ensures
        r@ == (SourceView {
            id: "cli-"@ + crate::text::decimal(secs as nat),
            name: name@,
            kind: kind@,
            endpoint: endpoint@,
            enabled,
            builtin: false,
        }),
{
    let digits = crate::text::decimal_string(secs);
    ExploreSourceConfig {
        id: concat_str("cli-", digits.as_str()),
        name: owned(name),
        kind: owned(kind),
        endpoint: owned(endpoint),
        enabled,
        builtin: false,
    }
}

/// Merge a saved source list with the built-in sources: every built-in
/// source appears once, in built-in order, overlaid with its saved copy;
/// user-defined sources follow, one per id.
pub fn merge_saved_sources(saved: Vec<ExploreSourceConfig>) -> (r: Vec<ExploreSourceConfig>)
    ensures
        source_views(r@) == merged_sources(source_views(saved@)),
{
    let ghost sv = source_views(saved@);
    let defaults = default_sources();
    let mut out: Vec<ExploreSourceConfig> = Vec::new();
    let mut i: usize = 0;
    while i < 4
        invariant
            i <= 4,
            defaults@.len() == 4,
            sv == source_views(saved@),
            forall|k: int| 0 <= k < 4 ==> #[trigger] defaults@[k]@ == default_source_views()[k],
            source_views(out@) == overlaid_defaults(sv, i as int),
            out@.len() == i,
        decreases 4 - i,
    {
        let d = &defaults[i];
        assert(defaults@[i as int]@ == default_source_views()[i as int]);
        let item = match find_last_by_id(&saved, d.id.as_str()) {
            Some(k) => {
                let s = &saved[k];
                let mut m = copy_source(s);
                m.builtin = d.builtin;
                if is_blank(s.kind.as_str()) {
                    m.kind = d.kind.clone();
                }
                if is_blank(s.name.as_str()) {
                    m.name = d.name.clone();
                }
                m
            },
            None => copy_source(d),
        };
        assert(item@ == overlay_default(default_source_views()[i as int], sv));
        let ghost prev = out@;
        out.push(item);
        assert(source_views(out@) =~= source_views(prev).push(out@[i as int]@));
        i = i + 1;
    }
    let ghost head = source_views(out@);
    let mut n: usize = 0;
    while n < saved.len()
        invariant
            n <= saved@.len(),
            sv == source_views(saved@),
            source_views(out@) == head + custom_sources(sv, n as int),
        decreases saved.len() - n,
    {
        let s = &saved[n];
        let mut first = true;
        let mut j: usize = 0;
        while j < n
            invariant
                j <= n < saved@.len(),
                sv == source_views(saved@),
                *s == saved@[n as int],
                first == forall|k: int| 0 <= k < j ==> sv[k].id != sv[n as int].id,
            decreases n - j,
        {
            assert(sv[j as int] == saved@[j as int]@);
            assert(sv[n as int] == saved@[n as int]@);
            if str_eq(saved[j].id.as_str(), s.id.as_str()) {
                first = false;
                assert(!(forall|k: int| 0 <= k < j + 1 ==> sv[k].id != sv[n as int].id)) by {
                    assert(sv[j as int].id == sv[n as int].id);
                }
            }
            j = j + 1;
        }
        let ghost prev = out@;
        assert(sv[n as int] == saved@[n as int]@);
        let ghost cond = first_of_id(sv, n as int) && !is_default_id(sv[n as int].id) && trim(sv[n as int].id).len() > 0;
        assert(custom_sources(sv, n + 1) == if cond {
            custom_sources(sv, n as int).push(last_by_id(sv, sv[n as int].id).unwrap())
        } else {
            custom_sources(sv, n as int)
        });
        if first && !is_default_id_exec(s.id.as_str()) && !is_blank(s.id.as_str()) {
            assert(cond);
            let k = find_last_by_id(&saved, s.id.as_str());
            match k {
                Some(k) => {
                    let c = copy_source(&saved[k]);
                    out.push(c);
                    assert(source_views(out@) =~= source_views(prev).push(saved@[k as int]@));
                },
                None => {
                    assert(last_by_id(sv, sv[n as int].id) is Some) by {
                        lemma_last_by_id_some(sv, n as int);
                    }
                },
            }
        } else {
            assert(!cond);
        }
        n = n + 1;
        assert(source_views(out@) =~= head + custom_sources(sv, n as int));
    }
    out
}

proof fn lemma_last_by_id_some(sv: Seq<SourceView>, n: int)
    requires
        0 <= n < sv.len(),
    ensures
        last_by_id(sv, sv[n].id) is Some,
    decreases sv.len(),
{
    if sv.last().id != sv[n].id {
        assert(n < sv.len() - 1);
        assert(sv.drop_last()[n] == sv[n]);
        lemma_last_by_id_some(sv.drop_last(), n);
    }
}


/// A value with surrounding whitespace and trailing `.git` suffixes removed.
pub open spec fn trimmed_repo(v: Seq<char>) -> Seq<char> {
    strip_suffix_all(trim(v), ".git"@)
}

/// Starts with a URL scheme or SSH form that is kept verbatim.
pub open spec fn has_url_scheme(t: Seq<char>) -> bool {
    has_prefix(t, "http://"@) || has_prefix(t, "https://"@) || has_prefix(t, "git@"@)
        || has_prefix(t, "ssh://"@) || has_prefix(t, "file://"@)
}

/// A two-segment `owner/repo` slug without dots or colons.
pub open spec fn is_github_slug(t: Seq<char>) -> bool {
    let parts = split_char(t, '/');
    parts.len() == 2 && !contains(t, "."@) && !contains(t, ":"@) && parts[0].len() > 0
        && parts[1].len() > 0
}

/// The source URL an index entry points at: GitHub slugs are expanded to
/// full URLs, everything else is kept as written.
pub open spec fn spec_normalize_source_value(v: Seq<char>) -> Seq<char> {
    let t = trimmed_repo(v);
    if has_url_scheme(t) {
        t
    } else if is_github_slug(t) {
        "https://github.com/"@ + t
    } else {
        t
    }
}

fn trimmed_repo_vec(value: &str) -> (r: Vec<char>)
    ensures
        r@ == trimmed_repo(value@),
{
    let v = chars_of(value);
    let t = trim_vec(&v);
    strip_suffix_all_vec(&t, &chars_of(".git"))
}

fn has_url_scheme_vec(t: &[char]) -> (r: bool)
    ensures
        r == has_url_scheme(t@),
{
    starts_with_vec(t, &chars_of("http://")) || starts_with_vec(t, &chars_of("https://"))
        || starts_with_vec(t, &chars_of("git@")) || starts_with_vec(t, &chars_of("ssh://"))
        || starts_with_vec(t, &chars_of("file://"))
}

/// Normalize a source URL value from an explore index.
pub fn normalize_source_value(value: &str) -> (r: String)
    ensures
        r@ == spec_normalize_source_value(value@),
{
    let t = trimmed_repo_vec(value);
    if has_url_scheme_vec(&t) {
        return string_of(&t);
    }
    let parts = split_char_vec(&t, '/');
    if parts.len() == 2 && !contains_vec(&t, &chars_of(".")) && !contains_vec(&t, &chars_of(":"))
        && parts[0].len() > 0 && parts[1].len() > 0 {
        assert(parts@[0]@ == split_char(t@, '/')[0]);
        assert(parts@[1]@ == split_char(t@, '/')[1]);
        let mut out = chars_of("https://github.com/");
        extend_vec(&mut out, &t);
        string_of(&out)
    } else {
        proof {
            if split_char(t@, '/').len() == 2 {
                assert(parts@[0]@ == split_char(t@, '/')[0]);
                assert(parts@[1]@ == split_char(t@, '/')[1]);
            }
        }
        string_of(&t)
    }
}

/// The comparison key of a source URL: GitHub host and `/tree/...` tails
/// removed, lowercased.
pub open spec fn spec_normalize_source_url(v: Seq<char>) -> Seq<char> {
    let a = replace_all(trimmed_repo(v), "https://github.com/"@, Seq::empty());
    let b = replace_all(a, "http://github.com/"@, Seq::empty());
    lowercase(before_first(b, "/tree/"@))
}

/// Normalize a source URL for de-duplication.
pub fn normalize_source_url(value: &str) -> (r: String)
    ensures
        r@ == spec_normalize_source_url(value@),
{
    let t = trimmed_repo_vec(value);
    let empty: Vec<char> = Vec::new();
    let a = replace_vec(&t, &chars_of("https://github.com/"), &empty);
    let b = replace_vec(&a, &chars_of("http://github.com/"), &empty);
    let c = before_first_vec(&b, &chars_of("/tree/"));
    assert(empty@ =~= Seq::<char>::empty());
    string_of(&lowercase_vec(&c))
}


/// The explore skill for a skills.sh search hit from `source`.
pub fn skill_from_online(item: OnlineSkillResult, source: &ExploreSourceConfig) -> (r: ExploreSkill)
    ensures
        r.id@ == source.id@ + ":"@ + item.source@,
        r.name == item.name,
        r.summary@ == Seq::<char>::empty(),
        r.source_url == item.source_url,
        r.source_name == source.name,
        r.source_kind == source.kind,
        r.downloads == item.installs,
        r.stars == 0,
{
    let mut id = chars_of(source.id.as_str());
    extend_vec(&mut id, &chars_of(":"));
    extend_vec(&mut id, &chars_of(item.source.as_str()));
    ExploreSkill {
        id: string_of(&id),
        name: item.name,
        summary: String::new(),
        source_url: item.source_url,
        source_name: source.name.clone(),
        source_kind: source.kind.clone(),
        downloads: item.installs,
        stars: 0,
    }
}

/// The fields of an index entry, each the first one present among its
/// accepted names: the name (`name`, `title`, `slug`), the source (`source_url`,
/// `sourceUrl`, `repository`, `repo`, `url`, `source`), the summary
/// (`summary`, `description`, `desc`), the slug (`slug`, `id`), the downloads
/// (`downloads`, `installs`) and the stars (`stars`, `github_stars`,
/// `star_count`).
#[derive(Debug, Clone)]
pub struct IndexItemFields {
    pub name: Option<String>,
    pub source: Option<String>,
    pub summary: Option<String>,
    pub slug: Option<String>,
    pub downloads: Option<u64>,
    pub stars: Option<u64>,
}

/// The contents of an [`IndexItemFields`].
pub struct IndexFieldsView {
    pub name: Option<Seq<char>>,
    pub source: Option<Seq<char>>,
    pub summary: Option<Seq<char>>,
    pub slug: Option<Seq<char>>,
    pub downloads: Option<u64>,
    pub stars: Option<u64>,
}

impl View for IndexItemFields {
    type V = IndexFieldsView;

    open spec fn view(&self) -> IndexFieldsView {
        IndexFieldsView {
            name: crate::app_config::opt_view(self.name),
            source: crate::app_config::opt_view(self.source),
            summary: crate::app_config::opt_view(self.summary),
            slug: crate::app_config::opt_view(self.slug),
            downloads: self.downloads,
            stars: self.stars,
        }
    }
}

/// The explore skill an index entry describes: none without a name or a
/// source, or when the source normalizes to nothing.
pub open spec fn spec_index_skill(f: IndexFieldsView, source: SourceView) -> Option<(Seq<char>, Seq<char>, Seq<char>, Seq<char>, u64, u64)> {
    match (f.name, f.source) {
        (Some(name), Some(src)) => {
            let url = spec_normalize_source_value(src);
            if url.len() == 0 {
                None
            } else {
                let slug = match f.slug {
                    Some(s) => s,
                    None => name,
                };
                let summary = match f.summary {
                    Some(s) => s,
                    None => Seq::empty(),
                };
                let downloads = match f.downloads {
                    Some(d) => d,
                    None => 0,
                };
                let stars = match f.stars {
                    Some(d) => d,
                    None => 0,
                };
                Some((source.id + ":"@ + slug, name, summary, url, downloads, stars))
            }
        },
        _ => None,
    }
}

/// The explore skill an index entry of `source` describes.
pub fn index_skill(fields: IndexItemFields, source: &ExploreSourceConfig) -> (r: Option<ExploreSkill>)
    ensures
        match r {
            Some(k) => spec_index_skill(fields@, source@) == Some(
                (k.id@, k.name@, k.summary@, k.source_url@, k.downloads, k.stars),
            ) && k.source_name == source.name && k.source_kind == source.kind,
            None => spec_index_skill(fields@, source@) is None,
        },
{
    let (name, src) = match (fields.name, fields.source) {
        (Some(n), Some(s)) => (n, s),
        _ => return None,
    };
    let url = normalize_source_value(src.as_str());
    if chars_of(url.as_str()).len() == 0 {
        return None;
    }
    let mut id = chars_of(source.id.as_str());
    extend_vec(&mut id, &chars_of(":"));
    match &fields.slug {
        Some(s) => extend_vec(&mut id, &chars_of(s.as_str())),
        None => extend_vec(&mut id, &chars_of(name.as_str())),
    }
    let summary = match fields.summary {
        Some(s) => s,
        None => String::new(),
    };
    let downloads = match fields.downloads {
        Some(d) => d,
        None => 0,
    };
    let stars = match fields.stars {
        Some(d) => d,
        None => 0,
    };
    Some(ExploreSkill {
        id: string_of(&id),
        name,
        summary,
        source_url: url,
        source_name: source.name.clone(),
        source_kind: source.kind.clone(),
        downloads,
        stars,
    })
}

/// Whether a skill's name, summary or source mentions the lowercase query.
pub open spec fn matches_query(k: ExploreSkill, lower_query: Seq<char>) -> bool {
    contains(lowercase(k.name@), lower_query) || contains(lowercase(k.summary@), lower_query) || contains(
        lowercase(k.source_url@),
        lower_query,
    )
}

/// The skills that mention the lowercase query, in order.
pub open spec fn filtered(s: Seq<ExploreSkill>, lower_query: Seq<char>) -> Seq<ExploreSkill>
    decreases s.len(),
{
    if s.len() == 0 {
        Seq::empty()
    } else if matches_query(s.last(), lower_query) {
        filtered(s.drop_last(), lower_query).push(s.last())
    } else {
        filtered(s.drop_last(), lower_query)
    }
}

/// Keep the skills that mention `query` (compared in lowercase).
pub fn filter_by_query(skills: Vec<ExploreSkill>, query: &str) -> (r: Vec<ExploreSkill>)
    ensures
        r@ == filtered(skills@, lowercase(query@)),
{
    let q = lowercase_vec(&chars_of(query));
    let mut out: Vec<ExploreSkill> = Vec::new();
    let mut i: usize = 0;
    while i < skills.len()
        invariant
            i <= skills@.len(),
            q@ == lowercase(query@),
            out@ == filtered(skills@.take(i as int), q@),
        decreases skills.len() - i,
    {
        let k = &skills[i];
        proof {
            let t = skills@.take(i + 1);
            assert(t.drop_last() =~= skills@.take(i as int));
            assert(t.last() == skills@[i as int]);
        }
        if contains_vec(&lowercase_vec(&chars_of(k.name.as_str())), &q) || contains_vec(
            &lowercase_vec(&chars_of(k.summary.as_str())),
            &q,
        ) || contains_vec(&lowercase_vec(&chars_of(k.source_url.as_str())), &q) {
            out.push(copy_skill(k));
        }
        i = i + 1;
    }
    assert(skills@.take(skills@.len() as int) =~= skills@);
    out
}

fn copy_skill(k: &ExploreSkill) -> (r: ExploreSkill)
    ensures
        r == *k,
{
    ExploreSkill {
        id: k.id.clone(),
        name: k.name.clone(),
        summary: k.summary.clone(),
        source_url: k.source_url.clone(),
        source_name: k.source_name.clone(),
        source_kind: k.source_kind.clone(),
        downloads: k.downloads,
        stars: k.stars,
    }
}

/// How many skills the explore view lists at most: `limit` within 1..=100.
pub open spec fn explore_limit(limit: usize) -> usize {
    if limit < 1 { 1 } else if limit > 100 { 100 } else { limit }
}

/// Two listed skills are the same when their lowercase names and their
/// normalized source URLs agree.
pub open spec fn dedup_key(k: ExploreSkill) -> Seq<char> {
    lowercase(k.name@) + "|"@ + spec_normalize_source_url(k.source_url@)
}

/// The first skill of each key among the first `n`, in order.
pub open spec fn deduped(s: Seq<ExploreSkill>, n: int) -> Seq<ExploreSkill>
    decreases n,
{
    if n <= 0 {
        Seq::empty()
    } else {
        let prev = deduped(s, n - 1);
        if (exists|j: int| 0 <= j < prev.len() && #[trigger] dedup_key(prev[j]) == dedup_key(s[n - 1])) {
            prev
        } else {
            prev.push(s[n - 1])
        }
    }
}

proof fn lemma_deduped_grows(s: Seq<ExploreSkill>, m: int, n: int)
    requires
        0 <= m <= n,
    ensures
        deduped(s, m) == deduped(s, n).take(deduped(s, m).len() as int),
        deduped(s, m).len() <= deduped(s, n).len(),
    decreases n - m,
{
    if m < n {
        lemma_deduped_grows(s, m, n - 1);
        let a = deduped(s, n - 1);
        let b = deduped(s, n);
        assert(b.take(a.len() as int) =~= a);
        assert(b.take(deduped(s, m).len() as int) =~= a.take(deduped(s, m).len() as int));
    } else {
        assert(deduped(s, n).take(deduped(s, n).len() as int) =~= deduped(s, n));
    }
}

/// The skills to list: each key once, its first occurrence, at most the
/// clamped limit.
pub open spec fn spec_listed(s: Seq<ExploreSkill>, limit: usize) -> Seq<ExploreSkill> {
    let d = deduped(s, s.len() as int);
    if d.len() > explore_limit(limit) { d.take(explore_limit(limit) as int) } else { d }
}

/// Among skills of one name (up to case), two are repeats exactly when
/// their normalized source URLs agree: the key tells sources apart.
pub proof fn law_same_name_repeats_only_with_same_source(a: ExploreSkill, b: ExploreSkill)
    requires
        lowercase(a.name@) == lowercase(b.name@),
    ensures
        dedup_key(a) == dedup_key(b) <==> spec_normalize_source_url(a.source_url@)
            == spec_normalize_source_url(b.source_url@),
{
    reveal_strlit("|");
    assert("|"@.len() == 1);
    let p = lowercase(a.name@) + "|"@;
    assert(dedup_key(a) == p + spec_normalize_source_url(a.source_url@));
    assert(dedup_key(b) == p + spec_normalize_source_url(b.source_url@));
    if dedup_key(a) == dedup_key(b) {
        assert(dedup_key(a).skip(p.len() as int) =~= spec_normalize_source_url(a.source_url@));
        assert(dedup_key(b).skip(p.len() as int) =~= spec_normalize_source_url(b.source_url@));
    }
}

/// Two skills of one name (up to case) from sources whose normalized URLs
/// differ are both listed, in their order, whenever the limit allows two.
pub proof fn law_same_name_other_source_both_listed(a: ExploreSkill, b: ExploreSkill, limit: usize)
    requires
        lowercase(a.name@) == lowercase(b.name@),
        spec_normalize_source_url(a.source_url@) != spec_normalize_source_url(b.source_url@),
        limit >= 2,
    ensures
        spec_listed(seq![a, b], limit) == seq![a, b],
{
    law_same_name_repeats_only_with_same_source(a, b);
    let s = seq![a, b];
    assert(deduped(s, 0) == Seq::<ExploreSkill>::empty());
    assert(deduped(s, 1) == seq![a]) by {
        assert(deduped(s, 0).push(s[0]) =~= seq![a]);
    }
    assert(!(exists|j: int| 0 <= j < deduped(s, 1).len() && #[trigger] dedup_key(deduped(s, 1)[j]) == dedup_key(s[1])));
    assert(deduped(s, 2) =~= seq![a, b]);
}

fn dedup_key_exec(k: &ExploreSkill) -> (r: Vec<char>)
    ensures
        r@ == dedup_key(*k),
{
    let mut v = lowercase_vec(&chars_of(k.name.as_str()));
    extend_vec(&mut v, &chars_of("|"));
    extend_vec(&mut v, &chars_of(normalize_source_url(k.source_url.as_str()).as_str()));
    v
}

/// List the gathered skills: drop repeats of a name and source, keep the
/// first occurrence, stop at the limit (clamped to 1..=100).
pub fn dedupe_skills(collected: Vec<ExploreSkill>, limit: usize) -> (r: Vec<ExploreSkill>)
    ensures
        r@ == spec_listed(collected@, limit),
{
    let lim: usize = if limit < 1 { 1 } else if limit > 100 { 100 } else { limit };
    let ghost s = collected@;
    let mut out: Vec<ExploreSkill> = Vec::new();
    let mut seen: Vec<String> = Vec::new();
    let mut i: usize = 0;
    while i < collected.len()
        invariant
            i <= s.len(),
            s == collected@,
            lim == explore_limit(limit),
            out@ == deduped(s, i as int),
            out@.len() < lim,
            crate::order::sorted_strict(crate::order::views(seen@)),
            crate::order::views(seen@).to_set() == out@.map_values(|k: ExploreSkill| dedup_key(k)).to_set(),
        decreases collected.len() - i,
    {
        let k = &collected[i];
        let key = dedup_key_exec(k);
        let ghost kv0 = crate::order::views(seen@);
        let ghost keys = out@.map_values(|k: ExploreSkill| dedup_key(k));
        let (pos, found) = crate::order::locate(&seen, &key);
        if found {
            proof {
                assert(kv0.to_set().contains(key@)) by {
                    assert(kv0[pos as int] == key@);
                }
                assert(keys.contains(key@));
                let j = choose|j: int| 0 <= j < keys.len() && keys[j] == key@;
                assert(dedup_key(out@[j]) == dedup_key(s[i as int]));
            }
        } else {
            proof {
                crate::order::lemma_insert_sorted(kv0, pos as int, key@);
                assert(!(exists|j: int| 0 <= j < out@.len() && #[trigger] dedup_key(out@[j]) == dedup_key(s[i as int]))) by {
                    if exists|j: int| 0 <= j < out@.len() && #[trigger] dedup_key(out@[j]) == dedup_key(s[i as int]) {
                        let j = choose|j: int| 0 <= j < out@.len() && #[trigger] dedup_key(out@[j]) == dedup_key(s[i as int]);
                        assert(keys[j] == key@);
                        assert(kv0.to_set().contains(key@));
                        let m = choose|m: int| 0 <= m < kv0.len() && kv0[m] == key@;
                        if m < pos {
                            assert(crate::order::seq_lt(kv0[m], key@));
                        } else {
                            assert(crate::order::seq_lt(key@, kv0[m]));
                        }
                        crate::order::lemma_lt_irreflexive(key@);
                    }
                }
            }
            seen.insert(pos, string_of(&key));
            out.push(copy_skill(k));
            proof {
                assert(crate::order::views(seen@) =~= kv0.insert(pos as int, key@));
                assert(out@.map_values(|k: ExploreSkill| dedup_key(k)) =~= keys.push(key@));
                keys.lemma_push_to_set_commute(key@);
            }
            if out.len() >= lim {
                proof {
                    lemma_deduped_grows(s, i + 1, s.len() as int);
                    assert(out@ == deduped(s, i + 1));
                    assert(out@.len() == lim);
                }
                return out;
            }
        }
        i = i + 1;
    }
    out
}

/// A JSON document as far as an explore index needs it: numbers are kept
/// as the unsigned integer they denote, if they denote one.
#[derive(Debug)]
pub enum JsonValue {
    Null,
    Bool(bool),
    Number(Option<u64>),
    Text(String),
    Array(Vec<JsonValue>),
    Object(Vec<(String, JsonValue)>),
}

/// The contents of a [`JsonValue`].
pub enum JsonView {
    Null,
    Bool(bool),
    Number(Option<u64>),
    Text(Seq<char>),
    Array(Seq<JsonView>),
    Object(Seq<(Seq<char>, JsonView)>),
}

/// The contents of a [`JsonValue`].
pub open spec fn json_view(v: JsonValue) -> JsonView
    decreases v,
{
    match v {
        JsonValue::Null => JsonView::Null,
        JsonValue::Bool(b) => JsonView::Bool(b),
        JsonValue::Number(n) => JsonView::Number(n),
        JsonValue::Text(t) => JsonView::Text(t@),
        JsonValue::Array(items) => JsonView::Array(Seq::new(items@.len(), |i: int|
            if 0 <= i < items@.len() { json_view(items@[i]) } else { JsonView::Null })),
        JsonValue::Object(fields) => JsonView::Object(Seq::new(fields@.len(), |i: int|
            if 0 <= i < fields@.len() { (fields@[i].0@, json_view(fields@[i].1)) } else { (Seq::empty(), JsonView::Null) })),
    }
}

impl View for JsonValue {
    type V = JsonView;

    open spec fn view(&self) -> JsonView {
        json_view(*self)
    }
}

pub open spec fn json_view_opt(v: Option<JsonValue>) -> Option<JsonView> {
    match v {
        Some(j) => Some(j@),
        None => None,
    }
}

/// What `serde_json` reads from a text: the document, or nothing when the
/// text is not JSON.
pub uninterp spec fn json_parse(text: Seq<char>) -> Option<JsonView>;

#[verifier::external_type_specification]
#[verifier::external_body]
pub struct ExSerdeJsonValue(serde_json::Value);

/// The document `serde_json::from_str` reads from `text`, converted one for
/// one (a number becomes what `as_u64` gives); nothing when the text is not
/// JSON. The result is named, not stated.
#[verifier::external_body]
pub fn parse_json(text: &str) -> (r: Option<JsonValue>)
    ensures
        json_view_opt(r) == json_parse(text@),
{
    match serde_json::from_str::<serde_json::Value>(text) {
        Ok(v) => Some(json_from_serde(v)),
        Err(_) => None,
    }
}

/// The conversion half of [`parse_json`], one variant for one, nested
/// values converted the same way. Nothing is stated of it; only
/// `parse_json` calls it.
#[verifier::external_body]
fn json_from_serde(v: serde_json::Value) -> JsonValue {
    match v {
        serde_json::Value::Null => JsonValue::Null,
        serde_json::Value::Bool(b) => JsonValue::Bool(b),
        serde_json::Value::Number(n) => JsonValue::Number(n.as_u64()),
        serde_json::Value::String(t) => JsonValue::Text(t),
        serde_json::Value::Array(a) => JsonValue::Array(a.into_iter().map(json_from_serde).collect()),
        serde_json::Value::Object(m) => JsonValue::Object(m.into_iter().map(|(k, x)| (k, json_from_serde(x))).collect()),
    }
}

/// The value under `key` in an object: that of the first field with this
/// name; none in anything but an object.
pub open spec fn first_field(fields: Seq<(Seq<char>, JsonView)>, key: Seq<char>) -> Option<JsonView>
    decreases fields.len(),
{
    if fields.len() == 0 {
        None
    } else if fields[0].0 == key {
        Some(fields[0].1)
    } else {
        first_field(fields.drop_first(), key)
    }
}

pub open spec fn field(v: JsonView, key: Seq<char>) -> Option<JsonView> {
    match v {
        JsonView::Object(fields) => first_field(fields, key),
        _ => None,
    }
}

/// The entries of an index document: the value under `skills`, else under
/// `items`, else under `data`, else the document itself, when that is an
/// array; no entries otherwise.
pub open spec fn index_entries(doc: JsonView) -> Seq<JsonView> {
    let chosen = match field(doc, "skills"@) {
        Some(x) => x,
        None => match field(doc, "items"@) {
            Some(x) => x,
            None => match field(doc, "data"@) {
                Some(x) => x,
                None => doc,
            },
        },
    };
    match chosen {
        JsonView::Array(items) => items,
        _ => Seq::empty(),
    }
}

/// The text under the first of `keys` that holds text.
pub open spec fn first_text(item: JsonView, keys: Seq<Seq<char>>) -> Option<Seq<char>>
    decreases keys.len(),
{
    if keys.len() == 0 {
        None
    } else {
        match field(item, keys[0]) {
            Some(JsonView::Text(t)) => Some(t),
            _ => first_text(item, keys.drop_first()),
        }
    }
}

/// The unsigned integer under the first of `keys` that holds one.
pub open spec fn first_number(item: JsonView, keys: Seq<Seq<char>>) -> Option<u64>
    decreases keys.len(),
{
    if keys.len() == 0 {
        None
    } else {
        match field(item, keys[0]) {
            Some(JsonView::Number(Some(n))) => Some(n),
            _ => first_number(item, keys.drop_first()),
        }
    }
}

pub open spec fn name_keys() -> Seq<Seq<char>> { seq!["name"@, "title"@, "slug"@] }
pub open spec fn source_keys() -> Seq<Seq<char>> {
    seq!["source_url"@, "sourceUrl"@, "repository"@, "repo"@, "url"@, "source"@]
}
pub open spec fn summary_keys() -> Seq<Seq<char>> { seq!["summary"@, "description"@, "desc"@] }
pub open spec fn slug_keys() -> Seq<Seq<char>> { seq!["slug"@, "id"@] }
pub open spec fn download_keys() -> Seq<Seq<char>> { seq!["downloads"@, "installs"@] }
pub open spec fn star_keys() -> Seq<Seq<char>> { seq!["stars"@, "github_stars"@, "star_count"@] }

/// The fields of an index entry (see [`IndexItemFields`]).
pub open spec fn entry_fields(item: JsonView) -> IndexFieldsView {
    IndexFieldsView {
        name: first_text(item, name_keys()),
        source: first_text(item, source_keys()),
        summary: first_text(item, summary_keys()),
        slug: first_text(item, slug_keys()),
        downloads: first_number(item, download_keys()),
        stars: first_number(item, star_keys()),
    }
}

/// The skills an index document lists, in order: each entry that
/// describes one (see [`spec_index_skill`]).
pub open spec fn indexed(entries: Seq<JsonView>, source: SourceView) -> Seq<(Seq<char>, Seq<char>, Seq<char>, Seq<char>, u64, u64)>
    decreases entries.len(),
{
    if entries.len() == 0 {
        Seq::empty()
    } else {
        indexed(entries.drop_last(), source) + match spec_index_skill(entry_fields(entries.last()), source) {
            Some(t) => seq![t],
            None => Seq::empty(),
        }
    }
}

pub open spec fn spec_index_items(doc: JsonView, source: SourceView) -> Seq<(Seq<char>, Seq<char>, Seq<char>, Seq<char>, u64, u64)> {
    indexed(index_entries(doc), source)
}

pub open spec fn skill_tuples(v: Seq<ExploreSkill>) -> Seq<(Seq<char>, Seq<char>, Seq<char>, Seq<char>, u64, u64)> {
    v.map_values(|k: ExploreSkill| (k.id@, k.name@, k.summary@, k.source_url@, k.downloads, k.stars))
}

pub open spec fn str_views(v: Seq<&str>) -> Seq<Seq<char>> {
    v.map_values(|k: &str| k@)
}

pub(crate) fn json_field<'a>(v: &'a JsonValue, key: &str) -> (r: Option<&'a JsonValue>)
    ensures
        match r {
            Some(x) => field(v@, key@) == Some(x@),
            None => field(v@, key@) is None,
        },
{
    match v {
        JsonValue::Object(fields) => {
            let ghost fv = match v@ { JsonView::Object(f) => f, _ => Seq::empty() };
            assert(fv.len() == fields@.len());
            assert(field(v@, key@) == first_field(fv, key@));
            let mut i: usize = 0;
            assert(fv.skip(0) =~= fv);
            while i < fields.len()
                invariant
                    i <= fields@.len(),
                    fv.len() == fields@.len(),
                    forall|j: int| 0 <= j < fields@.len() ==> #[trigger] fv[j] == (fields@[j].0@, fields@[j].1@),
                    first_field(fv, key@) == first_field(fv.skip(i as int), key@),
                    field(v@, key@) == first_field(fv, key@),
                decreases fields.len() - i,
            {
                let ghost rest = fv.skip(i as int);
                assert(rest.drop_first() =~= fv.skip(i + 1));
                assert(rest[0] == fv[i as int]);
                if str_eq(fields[i].0.as_str(), key) {
                    assert(fv[i as int] == (fields@[i as int].0@, fields@[i as int].1@));
                    assert(first_field(rest, key@) == Some(fields@[i as int].1@));
                    return Some(&fields[i].1);
                }
                i = i + 1;
            }
            None
        },
        _ => None,
    }
}

fn first_text_of(item: &JsonValue, keys: &Vec<&str>) -> (r: Option<String>)
    ensures
        crate::app_config::opt_view(r) == first_text(item@, str_views(keys@)),
{
    let ghost kv = str_views(keys@);
    let mut i: usize = 0;
    assert(kv.skip(0) =~= kv);
    while i < keys.len()
        invariant
            i <= keys@.len(),
            kv == str_views(keys@),
            first_text(item@, kv) == first_text(item@, kv.skip(i as int)),
        decreases keys.len() - i,
    {
        let ghost rest = kv.skip(i as int);
        assert(rest.drop_first() =~= kv.skip(i + 1));
        assert(rest[0] == keys@[i as int]@);
        match json_field(item, keys[i]) {
            Some(JsonValue::Text(t)) => {
                return Some(t.clone());
            },
            _ => {},
        }
        i = i + 1;
    }
    None
}

fn first_number_of(item: &JsonValue, keys: &Vec<&str>) -> (r: Option<u64>)
    ensures
        r == first_number(item@, str_views(keys@)),
{
    let ghost kv = str_views(keys@);
    let mut i: usize = 0;
    assert(kv.skip(0) =~= kv);
    while i < keys.len()
        invariant
            i <= keys@.len(),
            kv == str_views(keys@),
            first_number(item@, kv) == first_number(item@, kv.skip(i as int)),
        decreases keys.len() - i,
    {
        let ghost rest = kv.skip(i as int);
        assert(rest.drop_first() =~= kv.skip(i + 1));
        assert(rest[0] == keys@[i as int]@);
        match json_field(item, keys[i]) {
            Some(JsonValue::Number(Some(n))) => {
                return Some(*n);
            },
            _ => {},
        }
        i = i + 1;
    }
    None
}

fn keys_of(a: &'static str, b: &'static str, c: Option<&'static str>) -> (r: Vec<&'static str>)
    ensures
        str_views(r@) == (match c {
            Some(x) => seq![a@, b@, x@],
            None => seq![a@, b@],
        }),
{
    let mut v: Vec<&'static str> = Vec::new();
    v.push(a);
    v.push(b);
    match c {
        Some(x) => {
            v.push(x);
            assert(str_views(v@) =~= seq![a@, b@, x@]);
        },
        None => {
            assert(str_views(v@) =~= seq![a@, b@]);
        },
    }
    v
}

fn source_key_list() -> (r: Vec<&'static str>)
    ensures
        str_views(r@) == source_keys(),
{
    let mut v: Vec<&'static str> = Vec::new();
    v.push("source_url");
    v.push("sourceUrl");
    v.push("repository");
    v.push("repo");
    v.push("url");
    v.push("source");
    assert(str_views(v@) =~= source_keys());
    v
}

/// The fields of an index entry.
fn entry_fields_of(item: &JsonValue) -> (r: IndexItemFields)
    ensures
        r@ == entry_fields(item@),
{
    IndexItemFields {
        name: first_text_of(item, &keys_of("name", "title", Some("slug"))),
        source: first_text_of(item, &source_key_list()),
        summary: first_text_of(item, &keys_of("summary", "description", Some("desc"))),
        slug: first_text_of(item, &keys_of("slug", "id", None)),
        downloads: first_number_of(item, &keys_of("downloads", "installs", None)),
        stars: first_number_of(item, &keys_of("stars", "github_stars", Some("star_count"))),
    }
}

/// The skills an index document of `source` lists (see
/// [`spec_index_items`]): the array under `skills`, `items` or `data` (or
/// the document itself), each entry read through its field aliases.
pub fn index_items(doc: &JsonValue, source: &ExploreSourceConfig) -> (r: Vec<ExploreSkill>)
    ensures
        skill_tuples(r@) == spec_index_items(doc@, source@),
        forall|i: int| 0 <= i < r@.len() ==> (#[trigger] r@[i]).source_name == source.name
            && r@[i].source_kind == source.kind,
{
    let chosen = match json_field(doc, "skills") {
        Some(x) => x,
        None => match json_field(doc, "items") {
            Some(x) => x,
            None => match json_field(doc, "data") {
                Some(x) => x,
                None => doc,
            },
        },
    };
    let mut out: Vec<ExploreSkill> = Vec::new();
    match chosen {
        JsonValue::Array(items) => {
            let ghost ev = index_entries(doc@);
            assert(ev.len() == items@.len());
            let mut i: usize = 0;
            while i < items.len()
                invariant
                    i <= items@.len(),
                    ev.len() == items@.len(),
                    forall|j: int| 0 <= j < items@.len() ==> #[trigger] ev[j] == items@[j]@,
                    skill_tuples(out@) == indexed(ev.take(i as int), source@),
                    forall|j: int| 0 <= j < out@.len() ==> (#[trigger] out@[j]).source_name == source.name
                        && out@[j].source_kind == source.kind,
                decreases items.len() - i,
            {
                let ghost t = ev.take(i + 1);
                assert(t.drop_last() =~= ev.take(i as int));
                assert(t.last() == items@[i as int]@);
                let fields = entry_fields_of(&items[i]);
                let ghost prev = out@;
                match index_skill(fields, source) {
                    Some(k) => {
                        out.push(k);
                        assert(skill_tuples(out@) =~= skill_tuples(prev).push(
                            (k.id@, k.name@, k.summary@, k.source_url@, k.downloads, k.stars)));
                    },
                    None => {},
                }
                i = i + 1;
            }
            assert(ev.take(ev.len() as int) =~= ev);
        },
        _ => {},
    }
    out
}

} // verus!
