//! Online skill search and the featured-skills list: the requests they
//! make and what they make of the answers.

use vstd::prelude::*;
use crate::explore::{field, json_field, JsonValue, JsonView, OnlineSkillResult};
use crate::text::{chars_of, decimal, decimal_vec, extend_vec, string_of, strip_suffix_all, strip_suffix_all_vec};

verus! {

/// The skills.sh service searched by default.
pub const SKILLS_SH_BASE: &'static str = "https://skills.sh";

/// The settings key under which the last featured list fetched is cached.
pub const FEATURED_CACHE_KEY: &'static str = "featured_skills_cache";

/// A byte that URL encoding leaves as it is: ASCII letters and digits and
/// `-`, `.`, `_`, `~`.
pub open spec fn url_safe(b: u8) -> bool {
    (48 <= b <= 57) || (65 <= b <= 90) || (97 <= b <= 122) || b == 45 || b == 46 || b == 95 || b == 126
}

/// The uppercase hex digit of a value below sixteen.
pub open spec fn hex_upper(d: int) -> char {
    if d < 10 { (d + 48) as char } else { (d - 10 + 65) as char }
}

/// Bytes percent-encoded: safe bytes as they are, every other byte as `%`
/// and two uppercase hex digits.
pub open spec fn percent_encoded(b: Seq<u8>) -> Seq<char>
    decreases b.len(),
{
    if b.len() == 0 {
        Seq::empty()
    } else {
        let last = b.last();
        percent_encoded(b.drop_last()) + if url_safe(last) {
            seq![last as char]
        } else {
            seq!['%', hex_upper(last as int / 16), hex_upper(last as int % 16)]
        }
    }
}

/// `urlencoding::encode`: percent-encodes every byte of the UTF-8 text
/// except ASCII alphanumerics and `-`, `_`, `.`, `~`, with uppercase hex
/// digits, as its documentation and source state.
#[verifier::external_body]
fn url_encode(text: &str) -> (r: String)
    ensures
        r@ == percent_encoded(vstd::utf8::encode_utf8(text@)),
{
    urlencoding::encode(text).into_owned()
}

/// How many hits a search asks for: `limit` within 1..=50.
pub open spec fn search_limit(limit: usize) -> nat {
    if limit < 1 { 1 } else if limit > 50 { 50 } else { limit as nat }
}

/// The search request for `query` against the service at `base_url`.
pub open spec fn spec_search_url(base_url: Seq<char>, query: Seq<char>, limit: usize) -> Seq<char> {
    strip_suffix_all(base_url, "/"@) + "/api/search?q="@ + percent_encoded(vstd::utf8::encode_utf8(query)) + "&limit="@
        + decimal(search_limit(limit))
}

/// The URL that searches the service at `base_url` for `query`.
pub fn search_url(base_url: &str, query: &str, limit: usize) -> (r: String)
    ensures
        r@ == spec_search_url(base_url@, query@, limit),
{
    let lim: u64 = if limit < 1 { 1 } else if limit > 50 { 50 } else { limit as u64 };
    let mut v = strip_suffix_all_vec(&chars_of(base_url), &chars_of("/"));
    extend_vec(&mut v, &chars_of("/api/search?q="));
    extend_vec(&mut v, &chars_of(url_encode(query).as_str()));
    extend_vec(&mut v, &chars_of("&limit="));
    extend_vec(&mut v, &decimal_vec(lim));
    string_of(&v)
}

/// The search hit for a skill named `name` from the GitHub repository
/// `source`.
pub fn online_result(name: String, installs: u64, source: String) -> (r: OnlineSkillResult)
    ensures
        r.name == name,
        r.installs == installs,
        r.source == source,
        r.source_url@ == "https://github.com/"@ + source@,
{
    let mut url = chars_of("https://github.com/");
    extend_vec(&mut url, &chars_of(source.as_str()));
    OnlineSkillResult { name, installs, source, source_url: string_of(&url) }
}

/// A skill on the featured list.
#[derive(Debug, Clone)]
pub struct FeaturedSkill {
    pub slug: String,
    pub name: String,
    pub summary: String,
    pub downloads: u64,
    pub stars: u64,
    pub source_url: String,
}

/// The featured skills that name a source, in order.
pub open spec fn with_source(s: Seq<FeaturedSkill>) -> Seq<FeaturedSkill>
    decreases s.len(),
{
    if s.len() == 0 {
        Seq::empty()
    } else if s.last().source_url@.len() > 0 {
        with_source(s.drop_last()).push(s.last())
    } else {
        with_source(s.drop_last())
    }
}

fn copy_featured(f: &FeaturedSkill) -> (r: FeaturedSkill)
    ensures
        r == *f,
{
    FeaturedSkill {
        slug: f.slug.clone(),
        name: f.name.clone(),
        summary: f.summary.clone(),
        downloads: f.downloads,
        stars: f.stars,
        source_url: f.source_url.clone(),
    }
}

/// Drop the featured entries without a source URL.
pub fn featured_with_source(items: &Vec<FeaturedSkill>) -> (r: Vec<FeaturedSkill>)
    ensures
        r@ == with_source(items@),
{
    let mut out: Vec<FeaturedSkill> = Vec::new();
    let mut i: usize = 0;
    while i < items.len()
        invariant
            i <= items@.len(),
            out@ == with_source(items@.take(i as int)),
        decreases items.len() - i,
    {
        proof {
            let t = items@.take(i + 1);
            assert(t.drop_last() =~= items@.take(i as int));
            assert(t.last() == items@[i as int]);
        }
        if chars_of(items[i].source_url.as_str()).len() > 0 {
            out.push(copy_featured(&items[i]));
        }
        i = i + 1;
    }
    assert(items@.take(items@.len() as int) =~= items@);
    out
}

/// The featured list shown: the freshly fetched one when it has entries
/// with a source, else the cached one, else the bundled one (parsed lists,
/// `None` where fetching or parsing failed). The second result says
/// whether the fetched list is to be cached.
pub open spec fn spec_featured(
    fetched: Option<Seq<FeaturedSkill>>,
    cached: Option<Seq<FeaturedSkill>>,
    bundled: Option<Seq<FeaturedSkill>>,
) -> (Seq<FeaturedSkill>, bool) {
    match fetched {
        Some(f) if with_source(f).len() > 0 => (with_source(f), true),
        _ => match cached {
            Some(c) if with_source(c).len() > 0 => (with_source(c), false),
            _ => match bundled {
                Some(b) => (with_source(b), false),
                None => (Seq::empty(), false),
            },
        },
    }
}

pub open spec fn featured_view(o: Option<Vec<FeaturedSkill>>) -> Option<Seq<FeaturedSkill>> {
    match o {
        Some(v) => Some(v@),
        None => None,
    }
}

/// Choose the featured skills to show among the fetched, cached and
/// bundled lists.
pub fn fetch_featured_skills(
    fetched: Option<Vec<FeaturedSkill>>,
    cached: Option<Vec<FeaturedSkill>>,
    bundled: Option<Vec<FeaturedSkill>>,
) -> (r: (Vec<FeaturedSkill>, bool))
    ensures
        (r.0@, r.1) == spec_featured(featured_view(fetched), featured_view(cached), featured_view(bundled)),
{
    match &fetched {
        Some(f) => {
            let list = featured_with_source(f);
            if list.len() > 0 {
                return (list, true);
            }
        },
        None => {},
    }
    match &cached {
        Some(c) => {
            let list = featured_with_source(c);
            if list.len() > 0 {
                return (list, false);
            }
        },
        None => {},
    }
    match &bundled {
        Some(b) => (featured_with_source(b), false),
        None => (Vec::new(), false),
    }
}

/// A hit of a search reply, when it names the skill, its install count
/// and its repository.
pub open spec fn spec_hit(v: JsonView) -> Option<(Seq<char>, u64, Seq<char>)> {
    match (field(v, "name"@), field(v, "installs"@), field(v, "source"@)) {
        (Some(JsonView::Text(n)), Some(JsonView::Number(Some(i))), Some(JsonView::Text(src))) => Some((n, i, src)),
        _ => None,
    }
}

/// The hits of a reply's list, in order; nothing when any hit lacks a field.
pub open spec fn hits_of(items: Seq<JsonView>) -> Option<Seq<(Seq<char>, u64, Seq<char>)>>
    decreases items.len(),
{
    if items.len() == 0 {
        Some(Seq::empty())
    } else {
        match (hits_of(items.drop_last()), spec_hit(items.last())) {
            (Some(prev), Some(h)) => Some(prev.push(h)),
            _ => None,
        }
    }
}

/// What a skills.sh search reply lists: the hits under `skills`; nothing
/// when the reply has no such list or a hit lacks a field.
pub open spec fn spec_search_hits(doc: JsonView) -> Option<Seq<(Seq<char>, u64, Seq<char>)>> {
    match field(doc, "skills"@) {
        Some(JsonView::Array(items)) => hits_of(items),
        _ => None,
    }
}

proof fn lemma_hits_fail(items: Seq<JsonView>, k: int)
    requires
        0 <= k <= items.len(),
        hits_of(items.take(k)) is None,
    ensures
        hits_of(items) is None,
    decreases items.len() - k,
{
    if k < items.len() {
        assert(items.take(k + 1).drop_last() =~= items.take(k));
        lemma_hits_fail(items, k + 1);
    } else {
        assert(items.take(k) =~= items);
    }
}

pub open spec fn hit_views(v: Seq<OnlineSkillResult>) -> Seq<(Seq<char>, u64, Seq<char>)> {
    v.map_values(|h: OnlineSkillResult| (h.name@, h.installs, h.source@))
}

/// The search hits a skills.sh reply lists (see [`spec_search_hits`]), each
/// linked to its GitHub repository.
pub fn search_hits(doc: &JsonValue) -> (r: Option<Vec<OnlineSkillResult>>)
    ensures
        match r {
            Some(v) => spec_search_hits(doc@) == Some(hit_views(v@))
                && forall|i: int| 0 <= i < v@.len() ==> (#[trigger] v@[i]).source_url@ == "https://github.com/"@ + v@[i].source@,
            None => spec_search_hits(doc@) is None,
        },
{
    let items = match json_field(doc, "skills") {
        Some(JsonValue::Array(items)) => items,
        _ => return None,
    };
    let ghost iv = match field(doc@, "skills"@) { Some(JsonView::Array(x)) => x, _ => Seq::empty() };
    assert(iv.len() == items@.len());
    assert(spec_search_hits(doc@) == hits_of(iv));
    let mut out: Vec<OnlineSkillResult> = Vec::new();
    let mut i: usize = 0;
    assert(iv.take(0) =~= Seq::<JsonView>::empty());
    while i < items.len()
        invariant
            i <= items@.len(),
            iv.len() == items@.len(),
            spec_search_hits(doc@) == hits_of(iv),
            forall|j: int| 0 <= j < items@.len() ==> #[trigger] iv[j] == items@[j]@,
            hits_of(iv.take(i as int)) == Some(hit_views(out@)),
            forall|j: int| 0 <= j < out@.len() ==> (#[trigger] out@[j]).source_url@ == "https://github.com/"@ + out@[j].source@,
        decreases items.len() - i,
    {
        let t = Ghost(iv.take(i + 1));
        assert(t@.drop_last() =~= iv.take(i as int));
        assert(t@.last() == items@[i as int]@);
        let item = &items[i];
        let name = match json_field(item, "name") { Some(JsonValue::Text(n)) => Some(n.clone()), _ => None };
        let installs = match json_field(item, "installs") { Some(JsonValue::Number(Some(n))) => Some(*n), _ => None };
        let src = match json_field(item, "source") { Some(JsonValue::Text(n)) => Some(n.clone()), _ => None };
        match (name, installs, src) {
            (Some(n), Some(k), Some(sr)) => {
                let ghost prev = out@;
                let h = online_result(n, k, sr);
                out.push(h);
                assert(hit_views(out@) =~= hit_views(prev).push((h.name@, h.installs, h.source@)));
            },
            _ => {
                proof {
                    assert(spec_hit(iv[i as int]) is None);
                    lemma_hits_fail(iv, i + 1);
                }
                return None;
            },
        }
        i = i + 1;
    }
    assert(iv.take(iv.len() as int) =~= iv);
    Some(out)
}

} // verus!
