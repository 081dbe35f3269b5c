//! The origin shown for each managed skill: the label the interface groups
//! skills by, manual overrides of the inferred classification, and the
//! backfill of featured skills that were installed as plain local copies.

use vstd::prelude::*;
use crate::app_config::{opt_view, OriginRules, OriginRulesView};
use crate::backup::pair_views;
use crate::settings::last_value;
use crate::origin::{
    infer_source_origin, normalize_source_ref, spec_infer_source_origin, spec_normalize_source_ref,
    InferredOrigin, InferredView, LocalGit,
};
use crate::records::{origin_opt, OriginV, RecordV, SkillOriginRecord, SkillRecord};
use crate::text::{concat_str, owned, str_eq};

verus! {

/// The label the interface groups a skill under, from its origin kind and
/// role: official sources first, then the user's own Git repositories,
/// other Git repositories, packages, and everything else as local.
pub open spec fn spec_source_origin_label(kind: Seq<char>, role: Seq<char>) -> Seq<char> {
    if kind == "official"@ || role == "official"@ {
        "official"@
    } else if kind == "git"@ && (role == "owned"@ || role == "mine"@) {
        "my_git"@
    } else if kind == "git"@ {
        "git"@
    } else if kind == "package"@ {
        "package"@
    } else {
        "local"@
    }
}

/// The label the interface groups a skill under (see
/// [`spec_source_origin_label`]).
pub fn source_origin_label(origin_kind: &str, origin_role: &str) -> (r: String)
    ensures
        r@ == spec_source_origin_label(origin_kind@, origin_role@),
{
    if str_eq(origin_kind, "official") || str_eq(origin_role, "official") {
        owned("official")
    } else if str_eq(origin_kind, "git") && (str_eq(origin_role, "owned") || str_eq(origin_role, "mine")) {
        owned("my_git")
    } else if str_eq(origin_kind, "git") {
        owned("git")
    } else if str_eq(origin_kind, "package") {
        owned("package")
    } else {
        owned("local")
    }
}

/// What the filesystem showed of a local source, as `infer_source_origin`
/// reads it.
pub open spec fn local_git_seen(g: LocalGit) -> Option<Option<Seq<char>>> {
    match g {
        LocalGit::NotInRepository => None,
        LocalGit::NoOrigin => Some(None),
        LocalGit::Origin(u) => Some(Some(u@)),
    }
}

/// The stored origin record of an inferred classification.
pub open spec fn spec_record_from_inferred(skill: RecordV, inf: InferredView, now: i64) -> OriginV {
    OriginV {
        skill_id: skill.id,
        origin_kind: inf.origin_kind,
        origin_role: inf.origin_role,
        provider: inf.provider,
        remote_url: inf.remote_url,
        owner: inf.owner,
        repo: inf.repo,
        branch: None,
        subpath: skill.source_subpath,
        update_strategy: inf.update_strategy,
        publish_strategy: inf.publish_strategy,
        manual_override: false,
        reason: Some(inf.reason),
        updated_at: now,
    }
}

/// The origin record that stores an inferred classification of `skill`,
/// stamped `now`.
pub fn origin_record_from_inferred(skill: &SkillRecord, inferred: InferredOrigin, now: i64) -> (r: SkillOriginRecord)
    ensures
        r@ == spec_record_from_inferred(skill@, inferred@, now),
{
    let view = Ghost(inferred@);
    let InferredOrigin {
        origin_kind, origin_role, provider, remote_url, owner, repo, update_strategy, publish_strategy, reason,
    } = inferred;
    assert(opt_view(provider) == view@.provider);
    assert(opt_view(remote_url) == view@.remote_url);
    assert(opt_view(owner) == view@.owner);
    assert(opt_view(repo) == view@.repo);
    SkillOriginRecord {
        skill_id: skill.id.clone(),
        origin_kind,
        origin_role,
        provider,
        remote_url,
        owner,
        repo,
        branch: None,
        subpath: crate::text::copy_opt(&skill.source_subpath),
        update_strategy,
        publish_strategy,
        manual_override: false,
        reason: Some(reason),
        updated_at: now,
    }
}

/// `base` reclassified by hand as the given kind, role, provider and
/// strategies.
pub open spec fn overridden(
    base: OriginV,
    kind: Seq<char>,
    role: Seq<char>,
    provider: Seq<char>,
    update: Seq<char>,
    publish: Seq<char>,
    now: i64,
) -> OriginV {
    OriginV {
        skill_id: base.skill_id,
        origin_kind: kind,
        origin_role: role,
        provider: Some(provider),
        remote_url: base.remote_url,
        owner: base.owner,
        repo: base.repo,
        branch: base.branch,
        subpath: base.subpath,
        update_strategy: update,
        publish_strategy: publish,
        manual_override: true,
        reason: Some("manual override"@),
        updated_at: now,
    }
}

/// The message refusing an unknown source origin.
pub open spec fn invalid_source_origin(source_origin: Seq<char>) -> Seq<char> {
    "invalid source_origin: "@ + source_origin
}

/// `base` reclassified by hand as one of the source origins the interface
/// offers, or the message refusing any other name.
pub open spec fn spec_apply_source_origin(base: OriginV, source_origin: Seq<char>, now: i64) -> Result<OriginV, Seq<char>> {
    if source_origin == "official"@ {
        Ok(overridden(base, "official"@, "official"@, "official"@, "provider_refresh"@, "none"@, now))
    } else if source_origin == "my_git"@ {
        Ok(overridden(base, "git"@, "mine"@, "git"@, "git_pull"@, "git_push"@, now))
    } else if source_origin == "third_party_git"@ {
        Ok(overridden(base, "git"@, "third_party"@, "git"@, "git_pull"@, "none"@, now))
    } else if source_origin == "package"@ {
        Ok(overridden(base, "package"@, "repository"@, "npm"@, "package_refresh"@, "none"@, now))
    } else if source_origin == "local"@ {
        Ok(overridden(base, "local"@, "mine"@, "local"@, "local_copy"@, "none"@, now))
    } else {
        Err(invalid_source_origin(source_origin))
    }
}

fn set_origin(
    base: &mut SkillOriginRecord,
    kind: &str,
    role: &str,
    provider: &str,
    update: &str,
    publish: &str,
    now: i64,
)
    ensures
        final(base)@ == overridden(old(base)@, kind@, role@, provider@, update@, publish@, now),
{
    base.origin_kind = owned(kind);
    base.origin_role = owned(role);
    base.provider = Some(owned(provider));
    base.update_strategy = owned(update);
    base.publish_strategy = owned(publish);
    base.manual_override = true;
    base.reason = Some(owned("manual override"));
    base.updated_at = now;
}

/// Reclassify `base` by hand as `source_origin`, one of `official`,
/// `my_git`, `third_party_git`, `package` and `local`; any other name is
/// refused with a message that names it.
pub fn apply_source_origin(base: SkillOriginRecord, source_origin: &str, now: i64) -> (r: Result<SkillOriginRecord, String>)
    ensures
        match (r, spec_apply_source_origin(base@, source_origin@, now)) {
            (Ok(rec), Ok(v)) => rec@ == v,
            (Err(e), Err(m)) => e@ == m,
            _ => false,
        },
{
    let mut base = base;
    if str_eq(source_origin, "official") {
        set_origin(&mut base, "official", "official", "official", "provider_refresh", "none", now);
    } else if str_eq(source_origin, "my_git") {
        set_origin(&mut base, "git", "mine", "git", "git_pull", "git_push", now);
    } else if str_eq(source_origin, "third_party_git") {
        set_origin(&mut base, "git", "third_party", "git", "git_pull", "none", now);
    } else if str_eq(source_origin, "package") {
        set_origin(&mut base, "package", "repository", "npm", "package_refresh", "none", now);
    } else if str_eq(source_origin, "local") {
        set_origin(&mut base, "local", "mine", "local", "local_copy", "none", now);
    } else {
        return Err(concat_str("invalid source_origin: ", source_origin));
    }
    Ok(base)
}

/// Origin rules with no entries.
pub open spec fn no_rules() -> OriginRulesView {
    OriginRulesView { my_git_owners: Seq::empty(), my_git_repos: Seq::empty(), official_git_repos: Seq::empty() }
}

/// The classification of `skill` under rules with no entries.
pub open spec fn default_inference(skill: RecordV, local_git: Option<Option<Seq<char>>>) -> InferredView {
    spec_infer_source_origin(skill.source_type, skill.source_ref, skill.central_path, no_rules(), local_git)
}

/// The record a manual reclassification starts from: the stored one, or
/// else the classification under rules with no entries.
pub open spec fn manual_base(
    skill: RecordV,
    existing: Option<OriginV>,
    local_git: Option<Option<Seq<char>>>,
    now: i64,
) -> OriginV {
    match existing {
        Some(o) => o,
        None => spec_record_from_inferred(skill, default_inference(skill, local_git), now),
    }
}

/// The record that reclassifies `skill` by hand as `source_origin`, at time
/// `now`, starting from its stored origin record when there is one.
pub fn manual_origin_record_at(
    skill: &SkillRecord,
    existing: Option<SkillOriginRecord>,
    source_origin: &str,
    local_git: &LocalGit,
    now: i64,
) -> (r: Result<SkillOriginRecord, String>)
    ensures
        match (r, spec_apply_source_origin(manual_base(skill@, origin_opt(existing), local_git_seen(*local_git), now), source_origin@, now)) {
            (Ok(rec), Ok(v)) => rec@ == v,
            (Err(e), Err(m)) => e@ == m,
            _ => false,
        },
{
    let base = match existing {
        Some(o) => o,
        None => {
            let rules = OriginRules::default();
            assert(rules@.my_git_owners =~= Seq::empty());
            assert(rules@.my_git_repos =~= Seq::empty());
            assert(rules@.official_git_repos =~= Seq::empty());
            assert(rules@ == no_rules());
            let inferred = infer_source_origin(
                skill.source_type.as_str(),
                match &skill.source_ref {
                    Some(s) => Some(s.as_str()),
                    None => None,
                },
                skill.central_path.as_str(),
                &rules,
                local_git,
            );
            assert(match &skill.source_ref { Some(s) => Some(s@), None => None::<Seq<char>> } == skill@.source_ref);
            origin_record_from_inferred(skill, inferred, now)
        },
    };
    apply_source_origin(base, source_origin, now)
}

/// The record that reclassifies `skill` by hand as `source_origin`,
/// stamped with the current time. Whatever the clock gave, the record is
/// the one [`manual_origin_record_at`] makes at that time.
pub fn manual_origin_record(
    skill: &SkillRecord,
    existing: Option<SkillOriginRecord>,
    source_origin: &str,
    local_git: &LocalGit,
) -> (r: Result<SkillOriginRecord, String>)
    ensures
        match r {
            Ok(rec) => spec_apply_source_origin(
                manual_base(skill@, origin_opt(existing), local_git_seen(*local_git), rec@.updated_at),
                source_origin@,
                rec@.updated_at,
            ) == Ok::<OriginV, Seq<char>>(rec@),
            Err(e) => forall|t: i64| spec_apply_source_origin(
                #[trigger] manual_base(skill@, origin_opt(existing), local_git_seen(*local_git), t),
                source_origin@,
                t,
            ) == Err::<OriginV, Seq<char>>(e@),
        },
{
    let now = crate::profile::now_ms();
    let r = manual_origin_record_at(skill, existing, source_origin, local_git, now);
    proof {
        if r is Err {
            assert forall|t: i64| spec_apply_source_origin(
                #[trigger] manual_base(skill@, origin_opt(existing), local_git_seen(*local_git), t),
                source_origin@,
                t,
            ) == Err::<OriginV, Seq<char>>(r->Err_0@) by {}
        }
    }
    r
}

/// The kind and role a manual reclassification sets are grouped back under
/// the label that was chosen; a third-party Git repository is grouped with
/// the other Git repositories.
pub proof fn law_manual_origin_keeps_its_label(base: OriginV, source_origin: Seq<char>, now: i64)
    requires
        spec_apply_source_origin(base, source_origin, now) is Ok,
    ensures
        ({
            let rec = spec_apply_source_origin(base, source_origin, now)->Ok_0;
            &&& rec.manual_override
            &&& spec_source_origin_label(rec.origin_kind, rec.origin_role)
                == (if source_origin == "third_party_git"@ { "git"@ } else { source_origin })
        }),
{
    reveal_strlit("official");
    reveal_strlit("git");
    reveal_strlit("mine");
    reveal_strlit("owned");
    reveal_strlit("third_party");
    reveal_strlit("package");
    reveal_strlit("repository");
    reveal_strlit("local");
    reveal_strlit("my_git");
    reveal_strlit("third_party_git");
    assert("official"@.len() == 8);
    assert("git"@.len() == 3);
    assert("mine"@.len() == 4);
    assert("owned"@.len() == 5);
    assert("third_party"@.len() == 11);
    assert("package"@.len() == 7);
    assert("repository"@.len() == 10);
    assert("local"@.len() == 5);
    assert("my_git"@.len() == 6);
    assert("third_party_git"@.len() == 15);
    if source_origin == "official"@ {
    } else if source_origin == "my_git"@ {
        assert("git"@ != "official"@);
        assert("mine"@ != "official"@);
    } else if source_origin == "third_party_git"@ {
        assert("git"@ != "official"@);
        assert("third_party"@ != "official"@);
        assert("third_party"@ != "owned"@);
        assert("third_party"@ != "mine"@);
    } else if source_origin == "package"@ {
        assert("package"@ != "official"@);
        assert("repository"@ != "official"@);
        assert("package"@ != "git"@);
        assert("package"@ != "third_party_git"@);
    } else {
        assert("local"@ != "official"@);
        assert("mine"@ != "official"@);
        assert("local"@ != "git"@);
        assert("local"@ != "package"@);
        assert("local"@ != "third_party_git"@);
    }
}

/// A featured skill as the featured list describes it.
#[derive(Debug, Clone)]
pub struct FeaturedOriginEntry {
    pub slug: String,
    pub name: String,
    pub source_url: String,
}

/// The lookup key of a skill name: trimmed and lowercased.
pub open spec fn skill_key(s: Seq<char>) -> Seq<char> {
    crate::text::lowercase(crate::text::trim(s))
}

/// The lookup pairs of a featured list, in order: for each entry with a
/// source URL, its name and then its slug, each mapped to that URL.
pub open spec fn entry_pairs(entries: Seq<FeaturedOriginEntry>) -> Seq<(Seq<char>, Seq<char>)>
    decreases entries.len(),
{
    if entries.len() == 0 {
        Seq::empty()
    } else {
        let e = entries.last();
        entry_pairs(entries.drop_last()) + if crate::text::trim(e.source_url@).len() == 0 {
            Seq::empty()
        } else {
            seq![(skill_key(e.name@), e.source_url@), (skill_key(e.slug@), e.source_url@)]
        }
    }
}

/// The lookup pairs of a featured list (see [`entry_pairs`]).
pub fn featured_origin_pairs(entries: &Vec<FeaturedOriginEntry>) -> (r: Vec<(String, String)>)
    ensures
        pair_views(r@) == entry_pairs(entries@),
{
    let mut out: Vec<(String, String)> = Vec::new();
    let mut i: usize = 0;
    while i < entries.len()
        invariant
            i <= entries@.len(),
            pair_views(out@) == entry_pairs(entries@.subrange(0, i as int)),
        decreases entries.len() - i,
    {
        let e = &entries[i];
        assert(entries@.subrange(0, i + 1).drop_last() =~= entries@.subrange(0, i as int));
        if !crate::text::is_blank(e.source_url.as_str()) {
            let name_key = crate::origin::normalize_skill_key(e.name.as_str());
            let slug_key = crate::origin::normalize_skill_key(e.slug.as_str());
            out.push((name_key, e.source_url.clone()));
            out.push((slug_key, e.source_url.clone()));
        }
        i = i + 1;
        assert(pair_views(out@) =~= entry_pairs(entries@.subrange(0, i as int)));
    }
    assert(entries@.subrange(0, entries@.len() as int) =~= entries@);
    out
}

/// The source URL the featured table gives a skill of this name.
pub fn featured_source_for(table: &Vec<(String, String)>, skill_name: &str) -> (r: Option<String>)
    ensures
        opt_view(r) == last_value(pair_views(table@), skill_key(skill_name@)),
{
    let key = crate::origin::normalize_skill_key(skill_name);
    crate::settings::lookup_last(table, key.as_str())
}

/// Skills known to come from official repositories, by name.
pub open spec fn known_official_sources() -> Seq<(Seq<char>, Seq<char>)> {
    seq![
        ("agents-sdk"@, "https://github.com/cloudflare/skills/tree/main/skills/agents-sdk"@),
        ("cloudflare"@, "https://github.com/cloudflare/skills/tree/main/skills/cloudflare"@),
        ("cloudflare-email-service"@, "https://github.com/cloudflare/skills/tree/main/skills/cloudflare-email-service"@),
        ("cloudflare-one"@, "https://github.com/cloudflare/skills/tree/main/skills/cloudflare-one"@),
        ("cloudflare-one-migrations"@, "https://github.com/cloudflare/skills/tree/main/skills/cloudflare-one-migrations"@),
        ("durable-objects"@, "https://github.com/cloudflare/skills/tree/main/skills/durable-objects"@),
        ("find-skills"@, "https://github.com/vercel-labs/skills/tree/main/skills/find-skills"@),
        ("sandbox-sdk"@, "https://github.com/cloudflare/skills/tree/main/skills/sandbox-sdk"@),
        ("turnstile-spin"@, "https://github.com/cloudflare/skills/tree/main/skills/turnstile-spin"@),
        ("web-perf"@, "https://github.com/cloudflare/skills/tree/main/skills/web-perf"@),
        ("workers-best-practices"@, "https://github.com/cloudflare/skills/tree/main/skills/workers-best-practices"@),
        ("wrangler"@, "https://github.com/cloudflare/skills/tree/main/skills/wrangler"@),
    ]
}

/// The known official sources keyed by their lookup keys.
pub open spec fn known_pairs() -> Seq<(Seq<char>, Seq<char>)> {
    known_official_sources().map_values(|p: (Seq<char>, Seq<char>)| (skill_key(p.0), p.1))
}

fn push_known(out: &mut Vec<(String, String)>, name: &str, url: &str)
    ensures
        pair_views(final(out)@) == pair_views(old(out)@).push((skill_key(name@), url@)),
{
    let ghost before = out@;
    out.push((crate::origin::normalize_skill_key(name), owned(url)));
    assert(pair_views(out@) =~= pair_views(before).push((skill_key(name@), url@)));
}

/// The lookup pairs of the skills known to come from official
/// repositories.
pub fn known_official_pairs() -> (r: Vec<(String, String)>)
    ensures
        pair_views(r@) == known_pairs(),
{
    let mut out: Vec<(String, String)> = Vec::new();
    push_known(&mut out, "agents-sdk", "https://github.com/cloudflare/skills/tree/main/skills/agents-sdk");
    push_known(&mut out, "cloudflare", "https://github.com/cloudflare/skills/tree/main/skills/cloudflare");
    push_known(&mut out, "cloudflare-email-service", "https://github.com/cloudflare/skills/tree/main/skills/cloudflare-email-service");
    push_known(&mut out, "cloudflare-one", "https://github.com/cloudflare/skills/tree/main/skills/cloudflare-one");
    push_known(&mut out, "cloudflare-one-migrations", "https://github.com/cloudflare/skills/tree/main/skills/cloudflare-one-migrations");
    push_known(&mut out, "durable-objects", "https://github.com/cloudflare/skills/tree/main/skills/durable-objects");
    push_known(&mut out, "find-skills", "https://github.com/vercel-labs/skills/tree/main/skills/find-skills");
    push_known(&mut out, "sandbox-sdk", "https://github.com/cloudflare/skills/tree/main/skills/sandbox-sdk");
    push_known(&mut out, "turnstile-spin", "https://github.com/cloudflare/skills/tree/main/skills/turnstile-spin");
    push_known(&mut out, "web-perf", "https://github.com/cloudflare/skills/tree/main/skills/web-perf");
    push_known(&mut out, "workers-best-practices", "https://github.com/cloudflare/skills/tree/main/skills/workers-best-practices");
    push_known(&mut out, "wrangler", "https://github.com/cloudflare/skills/tree/main/skills/wrangler");
    assert(pair_views(out@) =~= known_pairs());
    out
}

/// The featured table: the known official sources, then the pairs of the
/// cached featured list when it gives any, else those of the bundled list.
pub open spec fn spec_featured_table(
    cached: Option<Seq<FeaturedOriginEntry>>,
    bundled: Seq<FeaturedOriginEntry>,
) -> Seq<(Seq<char>, Seq<char>)> {
    known_pairs() + if cached is Some && entry_pairs(cached.unwrap()).len() > 0 {
        entry_pairs(cached.unwrap())
    } else {
        entry_pairs(bundled)
    }
}

fn append_pairs(out: &mut Vec<(String, String)>, more: Vec<(String, String)>)
    ensures
        pair_views(final(out)@) == pair_views(old(out)@) + pair_views(more@),
{
    let ghost before = out@;
    let mut i: usize = 0;
    while i < more.len()
        invariant
            i <= more@.len(),
            pair_views(out@) == pair_views(before) + pair_views(more@.subrange(0, i as int)),
        decreases more.len() - i,
    {
        let a = owned(more[i].0.as_str());
        let b = owned(more[i].1.as_str());
        let ghost prev = out@;
        out.push((a, b));
        assert(pair_views(out@) =~= pair_views(prev).push((more@[i as int].0@, more@[i as int].1@)));
        assert(pair_views(more@.subrange(0, i + 1)) =~= pair_views(more@.subrange(0, i as int)).push((more@[i as int].0@, more@[i as int].1@)));
        i = i + 1;
        assert(pair_views(out@) =~= pair_views(before) + pair_views(more@.subrange(0, i as int)));
    }
    assert(more@.subrange(0, more@.len() as int) =~= more@);
}

/// The table a featured skill's source URL is looked up in (see
/// [`spec_featured_table`]). `cached` is the cached featured list, where one
/// is stored and reads as such.
pub fn featured_origin_table(
    cached: Option<&Vec<FeaturedOriginEntry>>,
    bundled: &Vec<FeaturedOriginEntry>,
) -> (r: Vec<(String, String)>)
    ensures
        pair_views(r@) == spec_featured_table(
            match cached { Some(c) => Some(c@), None => None },
            bundled@,
        ),
{
    let mut out = known_official_pairs();
    let extra = match cached {
        Some(c) => {
            let p = featured_origin_pairs(c);
            if p.len() > 0 {
                p
            } else {
                featured_origin_pairs(bundled)
            }
        },
        None => featured_origin_pairs(bundled),
    };
    proof {
        if cached is Some {
            assert(pair_views(extra@).len() == extra@.len());
        }
    }
    append_pairs(&mut out, extra);
    out
}

/// A skill installed as a local copy of a featured skill, whose source
/// reference is not already that featured source, is to be switched to it.
pub open spec fn needs_featured_backfill(skill: RecordV, featured: Option<Seq<char>>) -> bool {
    &&& featured is Some
    &&& skill.source_type == "local"@
    &&& !(skill.source_ref is Some
        && spec_normalize_source_ref(skill.source_ref.unwrap()) == spec_normalize_source_ref(featured.unwrap()))
}

/// `skill` switched to the Git source `url`, at the repository's root.
pub open spec fn backfilled(skill: RecordV, url: Seq<char>) -> RecordV {
    RecordV {
        id: skill.id,
        name: skill.name,
        description: skill.description,
        source_type: "git"@,
        source_ref: Some(url),
        source_subpath: None,
        source_revision: skill.source_revision,
        central_path: skill.central_path,
        content_hash: skill.content_hash,
        created_at: skill.created_at,
        updated_at: skill.updated_at,
        last_sync_at: skill.last_sync_at,
        last_seen_at: skill.last_seen_at,
        status: skill.status,
    }
}

pub open spec fn str_opt_view(o: Option<&str>) -> Option<Seq<char>> {
    match o {
        Some(s) => Some(s@),
        None => None,
    }
}

/// Switch a local copy of a featured skill to the featured Git source (see
/// [`needs_featured_backfill`]); says whether it did.
pub fn apply_featured_source(skill: &mut SkillRecord, featured_source: Option<&str>) -> (switched: bool)
    ensures
        switched == needs_featured_backfill(old(skill)@, str_opt_view(featured_source)),
        switched ==> final(skill)@ == backfilled(old(skill)@, featured_source.unwrap()@),
        !switched ==> final(skill)@ == old(skill)@,
{
    let url = match featured_source {
        Some(u) => u,
        None => return false,
    };
    if !str_eq(skill.source_type.as_str(), "local") {
        return false;
    }
    let same = match &skill.source_ref {
        Some(r) => str_eq(normalize_source_ref(r.as_str()).as_str(), normalize_source_ref(url).as_str()),
        None => false,
    };
    if same {
        return false;
    }
    skill.source_type = owned("git");
    skill.source_ref = Some(owned(url));
    skill.source_subpath = None;
    true
}

/// The origin a managed skill is shown with, and what of it is to be
/// stored again.
#[derive(Debug)]
pub struct ResolvedOrigin {
    pub record: SkillOriginRecord,
    /// The skill was switched to a featured Git source.
    pub skill_changed: bool,
    /// The record is a fresh inference, to be stored.
    pub record_changed: bool,
}

/// The origin a skill is shown with: a stored manual override stands;
/// otherwise a local copy of a featured skill is first switched to its Git
/// source, and the skill is classified afresh under `rules`.
pub fn resolve_managed_origin(
    skill: &mut SkillRecord,
    stored: Option<SkillOriginRecord>,
    featured_source: Option<&str>,
    rules: &OriginRules,
    local_git: &LocalGit,
    now: i64,
) -> (r: ResolvedOrigin)
    ensures
        match stored {
            Some(o) if o.manual_override => {
                &&& r.record@ == o@
                &&& !r.skill_changed
                &&& !r.record_changed
                &&& final(skill)@ == old(skill)@
            },
            _ => {
                let switched = needs_featured_backfill(old(skill)@, str_opt_view(featured_source));
                let sk = if switched { backfilled(old(skill)@, featured_source.unwrap()@) } else { old(skill)@ };
                &&& final(skill)@ == sk
                &&& r.skill_changed == switched
                &&& r.record_changed
                &&& r.record@ == spec_record_from_inferred(
                    sk,
                    spec_infer_source_origin(sk.source_type, sk.source_ref, sk.central_path, rules@, local_git_seen(*local_git)),
                    now,
                )
            },
        },
{
    if let Some(o) = stored {
        if o.manual_override {
            return ResolvedOrigin { record: o, skill_changed: false, record_changed: false };
        }
    }
    let switched = apply_featured_source(skill, featured_source);
    let inferred = infer_source_origin(
        skill.source_type.as_str(),
        match &skill.source_ref {
            Some(s) => Some(s.as_str()),
            None => None,
        },
        skill.central_path.as_str(),
        rules,
        local_git,
    );
    assert(match &skill.source_ref { Some(s) => Some(s@), None => None::<Seq<char>> } == skill@.source_ref);
    let record = origin_record_from_inferred(skill, inferred, now);
    ResolvedOrigin { record, skill_changed: switched, record_changed: true }
}

} // verus!
