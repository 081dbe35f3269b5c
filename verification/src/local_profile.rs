//! The profile document that describes this device: its portable skills,
//! their targets and tags, and tombstones for skills removed since the
//! last synchronization.

use vstd::prelude::*;
use crate::app_config::opt_view;
use crate::order::{insert_sorted_unique, lemma_is_sorted_of, seq_lt, sorted_of, sorted_strict, views, lt_vec};
use crate::profile::{
    copy_skill, key_set, lookup, override_view, semantic_equal, semantic_skill_equal, skill_views,
    spec_stable_skill_key, stable_skill_key, ConfigV, OverrideV, PortableProfileConfig, ProfileDocument,
    ProfileOriginOverride, ProfileSkill, SkillMap, SkillV, PROFILE_VERSION,
};
use crate::records::{OriginV, SkillOriginRecord, SkillRecord};
use crate::text::{
    ascii_lower, chars_of, eq_ignore_ascii_case, eq_ignore_ascii_case_vec, has_prefix, lowercase, owned,
    str_eq, str_starts_with, to_lowercase_str,
};

verus! {

/// A target of a managed skill: the tool and the scope it is synced in.
#[derive(Debug, Clone)]
pub struct LocalTarget {
    pub tool: String,
    pub scope: String,
}

/// What the profile needs to know of one managed skill: its record, its
/// targets, the names of its tags, and its stored origin.
#[derive(Debug, Clone)]
pub struct LocalSkillState {
    pub record: SkillRecord,
    pub targets: Vec<LocalTarget>,
    pub tags: Vec<String>,
    pub origin: Option<SkillOriginRecord>,
}

/// The origin a profile carries for a skill: only a manual override.
pub open spec fn spec_profile_origin(o: Option<OriginV>) -> Option<OverrideV> {
    match o {
        Some(x) => if x.manual_override {
            Some(
                OverrideV {
                    origin_kind: x.origin_kind,
                    origin_role: x.origin_role,
                    provider: x.provider,
                    remote_url: x.remote_url,
                    owner: x.owner,
                    repo: x.repo,
                    branch: x.branch,
                    subpath: x.subpath,
                    update_strategy: x.update_strategy,
                    publish_strategy: x.publish_strategy,
                },
            )
        } else {
            None
        },
        None => None,
    }
}

/// The origin override a profile carries for a skill.
pub fn profile_origin(origin: &Option<SkillOriginRecord>) -> (r: Option<ProfileOriginOverride>)
    ensures
        override_view(r) == spec_profile_origin(crate::records::origin_opt(*origin)),
{
    match origin {
        Some(o) => if o.manual_override {
            Some(ProfileOriginOverride {
                origin_kind: o.origin_kind.clone(),
                origin_role: o.origin_role.clone(),
                provider: crate::text::copy_opt(&o.provider),
                remote_url: crate::text::copy_opt(&o.remote_url),
                owner: crate::text::copy_opt(&o.owner),
                repo: crate::text::copy_opt(&o.repo),
                branch: crate::text::copy_opt(&o.branch),
                subpath: crate::text::copy_opt(&o.subpath),
                update_strategy: o.update_strategy.clone(),
                publish_strategy: o.publish_strategy.clone(),
            })
        } else {
            None
        },
        None => None,
    }
}

/// A target the profile shares: global scope, not a custom tool directory.
pub open spec fn is_shared_target(t: LocalTarget) -> bool {
    t.scope@ == "global"@ && !has_prefix(t.tool@, "custom:"@)
}

/// The tools of the shared targets, each once, in order.
pub open spec fn spec_profile_targets(ts: Seq<LocalTarget>) -> Seq<Seq<char>> {
    sorted_of(Set::new(|k: Seq<char>| exists|i: int| 0 <= i < ts.len() && is_shared_target(ts[i]) && #[trigger] ts[i].tool@ == k))
}

/// The tools of a skill's shared targets, sorted, each once.
pub fn profile_targets(ts: &Vec<LocalTarget>) -> (r: Vec<String>)
    ensures
        views(r@) == spec_profile_targets(ts@),
{
    let ghost s = ts@;
    let mut out: Vec<String> = Vec::new();
    let mut i: usize = 0;
    while i < ts.len()
        invariant
            i <= s.len(),
            s == ts@,
            sorted_strict(views(out@)),
            views(out@).to_set() == Set::new(
                |k: Seq<char>| exists|m: int| 0 <= m < i && is_shared_target(s[m]) && #[trigger] s[m].tool@ == k,
            ),
        decreases ts.len() - i,
    {
        let ghost before = views(out@).to_set();
        let t = &ts[i];
        let shared = str_eq(t.scope.as_str(), "global") && !str_starts_with(t.tool.as_str(), "custom:");
        if shared {
            insert_sorted_unique(&mut out, t.tool.clone());
        }
        assert(views(out@).to_set() =~= Set::new(
            |k: Seq<char>| exists|m: int| 0 <= m < i + 1 && is_shared_target(s[m]) && #[trigger] s[m].tool@ == k,
        )) by {
            assert forall|k: Seq<char>| (exists|m: int| 0 <= m < i + 1 && is_shared_target(s[m]) && #[trigger] s[m].tool@ == k)
                implies views(out@).to_set().contains(k) by {
                let m = choose|m: int| 0 <= m < i + 1 && is_shared_target(s[m]) && #[trigger] s[m].tool@ == k;
                if m < i {
                    assert(before.contains(k));
                }
            }
            assert forall|k: Seq<char>| views(out@).to_set().contains(k) implies (exists|m: int|
                0 <= m < i + 1 && is_shared_target(s[m]) && #[trigger] s[m].tool@ == k) by {
                if before.contains(k) {
                    let m = choose|m: int| 0 <= m < i && is_shared_target(s[m]) && #[trigger] s[m].tool@ == k;
                    assert(0 <= m < i + 1);
                } else {
                    assert(s[i as int] == *t);
                    assert(is_shared_target(s[i as int]) && s[i as int].tool@ == k);
                }
            }
        }
        i = i + 1;
    }
    proof {
        lemma_is_sorted_of(views(out@));
    }
    out
}

/// Insert `x` into a list ordered by lowercase name, after every name
/// whose lowercase form is not greater: the step of a stable sort.
pub open spec fn insert_by_lower(s: Seq<Seq<char>>, x: Seq<char>) -> Seq<Seq<char>>
    decreases s.len(),
{
    if s.len() == 0 {
        seq![x]
    } else if seq_lt(lowercase(x), lowercase(s.last())) {
        insert_by_lower(s.drop_last(), x).push(s.last())
    } else {
        s.push(x)
    }
}

/// Names stably sorted by their lowercase form.
pub open spec fn sort_by_lower(s: Seq<Seq<char>>) -> Seq<Seq<char>>
    decreases s.len(),
{
    if s.len() == 0 {
        Seq::empty()
    } else {
        insert_by_lower(sort_by_lower(s.drop_last()), s.last())
    }
}

/// Consecutive names equal but for ASCII case reduced to the first.
pub open spec fn dedup_ignoring_case(s: Seq<Seq<char>>) -> Seq<Seq<char>>
    decreases s.len(),
{
    if s.len() == 0 {
        Seq::empty()
    } else {
        let p = dedup_ignoring_case(s.drop_last());
        if p.len() > 0 && eq_ignore_ascii_case(s.last(), p.last()) { p } else { p.push(s.last()) }
    }
}

/// The tags a profile carries: sorted by lowercase name, repeats that
/// differ only in ASCII case dropped.
pub open spec fn spec_profile_tags(tags: Seq<Seq<char>>) -> Seq<Seq<char>> {
    dedup_ignoring_case(sort_by_lower(tags))
}

proof fn lemma_insert_by_lower(s: Seq<Seq<char>>, x: Seq<char>, j: int)
    requires
        0 <= j <= s.len(),
        forall|m: int| j <= m < s.len() ==> seq_lt(lowercase(x), lowercase(#[trigger] s[m])),
        j == 0 || !seq_lt(lowercase(x), lowercase(s[j - 1])),
    ensures
        insert_by_lower(s, x) == s.take(j).push(x) + s.skip(j),
    decreases s.len(),
{
    if s.len() == 0 {
        assert(s.take(j).push(x) + s.skip(j) =~= seq![x]);
    } else if j == s.len() {
        assert(s.take(j).push(x) + s.skip(j) =~= s.push(x));
    } else {
        let init = s.drop_last();
        assert(seq_lt(lowercase(x), lowercase(s[s.len() - 1])));
        assert forall|m: int| j <= m < init.len() implies seq_lt(lowercase(x), lowercase(#[trigger] init[m])) by {
            assert(init[m] == s[m]);
        }
        if j > 0 {
            assert(init[j - 1] == s[j - 1]);
        }
        lemma_insert_by_lower(init, x, j);
        assert(init.take(j).push(x) + init.skip(j) + seq![s.last()] =~= s.take(j).push(x) + s.skip(j));
    }
}

fn lower_of(s: &String) -> (r: Vec<char>)
    ensures
        r@ == lowercase(s@),
{
    chars_of(to_lowercase_str(s.as_str()).as_str())
}

/// The tags of a skill as a profile carries them.
pub fn profile_tags(tags: &Vec<String>) -> (r: Vec<String>)
    ensures
        views(r@) == spec_profile_tags(views(tags@)),
{
    let ghost tv = views(tags@);
    let mut sorted: Vec<String> = Vec::new();
    let mut i: usize = 0;
    while i < tags.len()
        invariant
            i <= tags@.len(),
            tv == views(tags@),
            views(sorted@) == sort_by_lower(tv.take(i as int)),
        decreases tags.len() - i,
    {
        let x = tags[i].clone();
        let lx = lower_of(&x);
        let mut j: usize = sorted.len();
        while j > 0 && lt_vec(&lx, &lower_of(&sorted[j - 1]))
            invariant
                j <= sorted@.len(),
                lx@ == lowercase(x@),
                forall|m: int| j <= m < sorted@.len() ==> seq_lt(lowercase(x@), lowercase(#[trigger] views(sorted@)[m])),
            decreases j,
        {
            j = j - 1;
        }
        let ghost sv = views(sorted@);
        proof {
            if j > 0 {
                assert(!seq_lt(lx@, lowercase(sv[j - 1])));
            }
            lemma_insert_by_lower(sv, x@, j as int);
            assert(tv.take(i + 1).drop_last() =~= tv.take(i as int));
            assert(tv.take(i + 1).last() == x@);
        }
        sorted.insert(j, x);
        assert(views(sorted@) =~= sv.take(j as int).push(tags@[i as int]@) + sv.skip(j as int));
        i = i + 1;
    }
    assert(tv.take(tv.len() as int) =~= tv);
    let ghost st = views(sorted@);
    let mut out: Vec<String> = Vec::new();
    let mut k: usize = 0;
    while k < sorted.len()
        invariant
            k <= sorted@.len(),
            st == views(sorted@),
            views(out@) == dedup_ignoring_case(st.take(k as int)),
        decreases sorted.len() - k,
    {
        proof {
            assert(st.take(k + 1).drop_last() =~= st.take(k as int));
            assert(st.take(k + 1).last() == st[k as int]);
        }
        let ghost o0 = views(out@);
        let n = out.len();
        let dup = n > 0 && eq_ignore_ascii_case_vec(&chars_of(sorted[k].as_str()), &chars_of(out[n - 1].as_str()));
        if !dup {
            out.push(sorted[k].clone());
            assert(views(out@) =~= o0.push(st[k as int]));
        }
        k = k + 1;
    }
    assert(st.take(st.len() as int) =~= st);
    out
}

/// The profile entry of a managed skill under `key`: its record, shared
/// targets and tags and origin override, the update policy and pinned
/// revision (from the record's revision, else from the previous entry),
/// stamped now by this device unless nothing changed since the previous
/// entry.
pub open spec fn spec_local_skill(
    st: LocalSkillState,
    key: Seq<char>,
    previous: Option<SkillV>,
    device: Seq<char>,
    now: i64,
) -> SkillV {
    let r = st.record;
    let fresh = SkillV {
        key,
        name: r.name@,
        source_type: r.source_type@,
        source_ref: match r.source_ref {
            Some(s) => s@,
            None => Seq::empty(),
        },
        source_subpath: opt_view(r.source_subpath),
        update_policy: if r.source_revision is Some {
            "pinned"@
        } else {
            match previous {
                Some(p) => p.update_policy,
                None => "latest"@,
            }
        },
        pinned_revision: if r.source_revision is Some {
            opt_view(r.source_revision)
        } else {
            match previous {
                Some(p) => p.pinned_revision,
                None => None,
            }
        },
        targets: spec_profile_targets(st.targets@),
        tags: spec_profile_tags(views(st.tags@)),
        origin_override: spec_profile_origin(crate::records::origin_opt(st.origin)),
        deleted_at: None,
        updated_at: now,
        updated_by: device,
    };
    match previous {
        Some(p) => if semantic_equal(fresh, p) {
            SkillV { updated_at: p.updated_at, updated_by: p.updated_by, ..fresh }
        } else {
            fresh
        },
        None => fresh,
    }
}


/// The entries of the first `n` managed skills that a profile carries, and
/// the names of the others (local skills without a portable source).
pub open spec fn local_entries(
    states: Seq<LocalSkillState>,
    base: Seq<SkillV>,
    device: Seq<char>,
    now: i64,
    n: int,
) -> (Seq<SkillV>, Seq<Seq<char>>)
    decreases n,
{
    if n <= 0 {
        (Seq::empty(), Seq::empty())
    } else {
        let (ks, skipped) = local_entries(states, base, device, now, n - 1);
        let st = states[n - 1];
        match spec_stable_skill_key(st.record) {
            None => (ks, skipped.push(st.record.name@)),
            Some(key) => (ks.push(spec_local_skill(st, key, lookup(base, key), device, now)), skipped),
        }
    }
}

/// What the first `n` entries of the previous profile leave behind when
/// this device no longer has their skill: a tombstone stamped now, or the
/// entry itself when it already was one.
pub open spec fn tombstones(base: Seq<SkillV>, seen: Set<Seq<char>>, device: Seq<char>, now: i64, n: int) -> Seq<SkillV>
    decreases n,
{
    if n <= 0 {
        Seq::empty()
    } else {
        let p = tombstones(base, seen, device, now, n - 1);
        let prev = base[n - 1];
        if seen.contains(prev.key) {
            p
        } else if prev.deleted_at is None {
            p.push(SkillV { deleted_at: Some(now), updated_at: now, updated_by: device, ..prev })
        } else {
            p.push(prev)
        }
    }
}

/// Insert an entry after every entry whose key is not greater: the step of
/// a stable sort by key.
pub open spec fn insert_by_key(s: Seq<SkillV>, x: SkillV) -> Seq<SkillV>
    decreases s.len(),
{
    if s.len() == 0 {
        seq![x]
    } else if seq_lt(x.key, s.last().key) {
        insert_by_key(s.drop_last(), x).push(s.last())
    } else {
        s.push(x)
    }
}

/// Entries stably sorted by key.
pub open spec fn sort_by_key(s: Seq<SkillV>) -> Seq<SkillV>
    decreases s.len(),
{
    if s.len() == 0 {
        Seq::empty()
    } else {
        insert_by_key(sort_by_key(s.drop_last()), s.last())
    }
}

proof fn lemma_insert_by_key(s: Seq<SkillV>, x: SkillV, j: int)
    requires
        0 <= j <= s.len(),
        forall|m: int| j <= m < s.len() ==> seq_lt(x.key, (#[trigger] s[m]).key),
        j == 0 || !seq_lt(x.key, s[j - 1].key),
    ensures
        insert_by_key(s, x) == s.take(j).push(x) + s.skip(j),
    decreases s.len(),
{
    if s.len() == 0 {
        assert(s.take(j).push(x) + s.skip(j) =~= seq![x]);
    } else if j == s.len() {
        assert(s.take(j).push(x) + s.skip(j) =~= s.push(x));
    } else {
        let init = s.drop_last();
        assert(seq_lt(x.key, s[s.len() - 1].key));
        assert forall|m: int| j <= m < init.len() implies seq_lt(x.key, (#[trigger] init[m]).key) by {
            assert(init[m] == s[m]);
        }
        if j > 0 {
            assert(init[j - 1] == s[j - 1]);
        }
        lemma_insert_by_key(init, x, j);
        assert(init.take(j).push(x) + init.skip(j) + seq![s.last()] =~= s.take(j).push(x) + s.skip(j));
    }
}

/// Sort profile entries by key, keeping entries with equal keys in order.
pub fn sort_skills_by_key(v: Vec<ProfileSkill>) -> (r: Vec<ProfileSkill>)
    ensures
        skill_views(r@) == sort_by_key(skill_views(v@)),
{
    let ghost vv = skill_views(v@);
    let mut sorted: Vec<ProfileSkill> = Vec::new();
    let mut i: usize = 0;
    while i < v.len()
        invariant
            i <= v@.len(),
            vv == skill_views(v@),
            skill_views(sorted@) == sort_by_key(vv.take(i as int)),
        decreases v.len() - i,
    {
        let x = copy_skill(&v[i]);
        let kx = chars_of(x.key.as_str());
        let mut j: usize = sorted.len();
        while j > 0 && lt_vec(&kx, &chars_of(sorted[j - 1].key.as_str()))
            invariant
                j <= sorted@.len(),
                kx@ == x.key@,
                forall|m: int| j <= m < sorted@.len() ==> seq_lt(x.key@, (#[trigger] skill_views(sorted@)[m]).key),
            decreases j,
        {
            j = j - 1;
        }
        let ghost sv = skill_views(sorted@);
        proof {
            if j > 0 {
                assert(!seq_lt(kx@, sv[j - 1].key));
            }
            lemma_insert_by_key(sv, x@, j as int);
            assert(vv.take(i + 1).drop_last() =~= vv.take(i as int));
            assert(vv.take(i + 1).last() == x@);
        }
        let ghost xv = x@;
        sorted.insert(j, x);
        assert(skill_views(sorted@) =~= sv.take(j as int).push(xv) + sv.skip(j as int));
        i = i + 1;
    }
    assert(vv.take(vv.len() as int) =~= vv);
    sorted
}

/// The profile of this device: the entries of its portable skills and the
/// tombstones of skills removed since the previous profile, sorted by key;
/// the shared configuration keeps its previous stamp when unchanged. Also
/// the names of the skills no profile carries.
pub open spec fn spec_local_document(
    states: Seq<LocalSkillState>,
    base: Option<crate::profile::DocV>,
    profile_id: Seq<char>,
    device: Seq<char>,
    now: i64,
    config: ConfigV,
) -> (crate::profile::DocV, Seq<Seq<char>>) {
    let base_skills = match base {
        Some(b) => b.skills,
        None => Seq::empty(),
    };
    let (entries, skipped) = local_entries(states, base_skills, device, now, states.len() as int);
    let seen = key_set(entries, entries.len() as int);
    let all = entries + tombstones(base_skills, seen, device, now, base_skills.len() as int);
    let same_config = base is Some && base.unwrap().config == config;
    (
        crate::profile::DocV {
            profile_version: PROFILE_VERSION,
            profile_id,
            generation: match base {
                Some(b) => b.generation,
                None => 0,
            },
            updated_at: now,
            updated_by: device,
            config,
            config_updated_at: if same_config { base.unwrap().config_updated_at } else { now },
            config_updated_by: if same_config { base.unwrap().config_updated_by } else { device },
            skills: sort_by_key(all),
        },
        skipped,
    )
}

fn local_entry(st: &LocalSkillState, key: String, previous: Option<&ProfileSkill>, device_id: &str, now: i64) -> (r: ProfileSkill)
    ensures
        r@ == spec_local_skill(*st, key@, crate::merge::ref_view(previous), device_id@, now),
{
    let r = &st.record;
    let update_policy = if r.source_revision.is_some() {
        owned("pinned")
    } else {
        match previous {
            Some(p) => p.update_policy.clone(),
            None => owned("latest"),
        }
    };
    let pinned_revision = if r.source_revision.is_some() {
        crate::text::copy_opt(&r.source_revision)
    } else {
        match previous {
            Some(p) => crate::text::copy_opt(&p.pinned_revision),
            None => None,
        }
    };
    let mut skill = ProfileSkill {
        key,
        name: r.name.clone(),
        source_type: r.source_type.clone(),
        source_ref: match &r.source_ref {
            Some(s) => s.clone(),
            None => String::new(),
        },
        source_subpath: crate::text::copy_opt(&r.source_subpath),
        update_policy,
        pinned_revision,
        targets: profile_targets(&st.targets),
        tags: profile_tags(&st.tags),
        origin_override: profile_origin(&st.origin),
        deleted_at: None,
        updated_at: now,
        updated_by: owned(device_id),
    };
    match previous {
        Some(p) => {
            if semantic_skill_equal(&skill, p) {
                skill.updated_at = p.updated_at;
                skill.updated_by = p.updated_by.clone();
            }
        },
        None => {},
    }
    skill
}


proof fn lemma_key_set_push(s: Seq<SkillV>, x: SkillV)
    ensures
        key_set(s.push(x), s.len() as int + 1) == key_set(s, s.len() as int).insert(x.key),
{
    let t = s.push(x);
    assert(key_set(t, s.len() as int + 1) =~= key_set(s, s.len() as int).insert(x.key)) by {
        assert forall|k: Seq<char>| key_set(t, s.len() as int + 1).contains(k) implies key_set(s, s.len() as int).insert(x.key).contains(k) by {
            let i = choose|i: int| 0 <= i < s.len() + 1 && #[trigger] t[i].key == k;
            if i < s.len() {
                assert(t[i] == s[i]);
                assert(key_set(s, s.len() as int).contains(k));
            }
        }
        assert forall|k: Seq<char>| key_set(s, s.len() as int).insert(x.key).contains(k) implies key_set(t, s.len() as int + 1).contains(k) by {
            if k == x.key {
                assert(t[s.len() as int].key == k);
            } else {
                let i = choose|i: int| 0 <= i < s.len() && #[trigger] s[i].key == k;
                assert(t[i] == s[i]);
            }
        }
    }
}

/// Describe this device as a profile document: its portable skills, and
/// tombstones for the skills of the previous profile it no longer has.
/// Returns the document and the names of the skills no profile carries.
pub fn build_local_document(
    states: &Vec<LocalSkillState>,
    base: Option<&ProfileDocument>,
    profile_id: &str,
    device_id: &str,
    now: i64,
    config: PortableProfileConfig,
) -> (r: (ProfileDocument, Vec<String>))
    ensures
        (r.0@, views(r.1@)) == spec_local_document(
            states@,
            crate::merge::doc_view(base),
            profile_id@,
            device_id@,
            now,
            config@,
        ),
{
    let empty: Vec<ProfileSkill> = Vec::new();
    let base_skills: &Vec<ProfileSkill> = match base {
        Some(b) => &b.skills,
        None => &empty,
    };
    let ghost bsv = skill_views(base_skills@);
    proof {
        if base is None {
            assert(bsv =~= Seq::<SkillV>::empty());
        }
    }
    let bm = SkillMap::build(base_skills);
    let mut entries: Vec<ProfileSkill> = Vec::new();
    let mut skipped: Vec<String> = Vec::new();
    let mut seen: Vec<String> = Vec::new();
    let mut i: usize = 0;
    assert(views(seen@).to_set() =~= key_set(skill_views(entries@), 0));
    while i < states.len()
        invariant
            i <= states@.len(),
            bm.indexes(bsv),
            (skill_views(entries@), views(skipped@)) == local_entries(states@, bsv, device_id@, now, i as int),
            sorted_strict(views(seen@)),
            views(seen@).to_set() == key_set(skill_views(entries@), entries@.len() as int),
        decreases states.len() - i,
    {
        let st = &states[i];
        let ghost ev0 = skill_views(entries@);
        let ghost sk0 = views(skipped@);
        match stable_skill_key(&st.record) {
            None => {
                skipped.push(st.record.name.clone());
                assert(views(skipped@) =~= sk0.push(st.record.name@));
            },
            Some(key) => {
                let kc = chars_of(key.as_str());
                let previous = bm.get(&kc, Ghost(bsv));
                let entry = local_entry(st, key, previous, device_id, now);
                let ghost ev = entry@;
                insert_sorted_unique(&mut seen, entry.key.clone());
                entries.push(entry);
                proof {
                    assert(skill_views(entries@) =~= ev0.push(ev));
                    lemma_key_set_push(ev0, ev);
                }
            },
        }
        i = i + 1;
    }
    let ghost ev = skill_views(entries@);
    let ghost seen_set = key_set(ev, ev.len() as int);
    let mut tombs: Vec<ProfileSkill> = Vec::new();
    let mut j: usize = 0;
    while j < base_skills.len()
        invariant
            j <= base_skills@.len(),
            bsv == skill_views(base_skills@),
            sorted_strict(views(seen@)),
            views(seen@).to_set() == seen_set,
            skill_views(tombs@) == tombstones(bsv, seen_set, device_id@, now, j as int),
        decreases base_skills.len() - j,
    {
        let prev = &base_skills[j];
        assert(bsv[j as int] == prev@);
        let (_pos, found) = crate::order::locate(&seen, &chars_of(prev.key.as_str()));
        proof {
            if found {
                assert(views(seen@)[_pos as int] == prev.key@);
                assert(seen_set.contains(prev.key@));
            } else if seen_set.contains(prev.key@) {
                let kv = views(seen@);
                let m = choose|m: int| 0 <= m < kv.len() && kv[m] == prev.key@;
                if m < _pos {
                    assert(seq_lt(kv[m], prev.key@));
                } else {
                    assert(seq_lt(prev.key@, kv[m]));
                }
                crate::order::lemma_lt_irreflexive(prev.key@);
            }
        }
        let ghost t0 = skill_views(tombs@);
        if !found {
            let mut t = copy_skill(prev);
            if prev.deleted_at.is_none() {
                t.deleted_at = Some(now);
                t.updated_at = now;
                t.updated_by = owned(device_id);
            }
            let ghost tv = t@;
            tombs.push(t);
            assert(skill_views(tombs@) =~= t0.push(tv));
        }
        j = j + 1;
    }
    let mut all = entries;
    let mut k: usize = 0;
    let ghost tv = skill_views(tombs@);
    while k < tombs.len()
        invariant
            k <= tombs@.len(),
            tv == skill_views(tombs@),
            skill_views(all@) == ev + tv.take(k as int),
        decreases tombs.len() - k,
    {
        let ghost a0 = skill_views(all@);
        let t = copy_skill(&tombs[k]);
        all.push(t);
        assert(skill_views(all@) =~= a0.push(tv[k as int]));
        assert(ev + tv.take(k + 1) =~= (ev + tv.take(k as int)).push(tv[k as int]));
        k = k + 1;
    }
    assert(tv.take(tv.len() as int) =~= tv);
    assert(bsv.len() == base_skills@.len());
    let skills = sort_skills_by_key(all);
    let (generation, same_config) = match base {
        Some(b) => (b.generation, crate::profile::config_eq(&b.config, &config)),
        None => (0, false),
    };
    let (cfg_at, cfg_by) = match base {
        Some(b) => if same_config {
            (b.config_updated_at, b.config_updated_by.clone())
        } else {
            (now, owned(device_id))
        },
        None => (now, owned(device_id)),
    };
    let doc = ProfileDocument {
        profile_version: PROFILE_VERSION,
        profile_id: owned(profile_id),
        generation,
        updated_at: now,
        updated_by: owned(device_id),
        config,
        config_updated_at: cfg_at,
        config_updated_by: cfg_by,
        skills,
    };
    (doc, skipped)
}


/// A skill carried from this device's own managed skill `st`: a Git or
/// package source, and only tools the skill is synced to in global scope.
pub open spec fn carried_from(s: SkillV, st: LocalSkillState) -> bool {
    &&& s.source_type == st.record.source_type@
    &&& (s.source_type == "git"@ || s.source_type == "package"@)
    &&& s.deleted_at is None
    &&& forall|t: Seq<char>| #[trigger] s.targets.contains(t) ==> exists|j: int|
        0 <= j < st.targets@.len() && is_shared_target(st.targets@[j]) && #[trigger] st.targets@[j].tool@ == t
}

/// The tools of the shared targets among the first `n`, in order.
spec fn shared_tools(ts: Seq<LocalTarget>, n: int) -> Seq<Seq<char>>
    decreases n,
{
    if n <= 0 {
        Seq::empty()
    } else if is_shared_target(ts[n - 1]) {
        shared_tools(ts, n - 1).push(ts[n - 1].tool@)
    } else {
        shared_tools(ts, n - 1)
    }
}

proof fn lemma_shared_tools(ts: Seq<LocalTarget>, n: int)
    requires
        0 <= n <= ts.len(),
    ensures
        forall|k: Seq<char>| #[trigger] shared_tools(ts, n).to_set().contains(k) <==> exists|i: int|
            0 <= i < n && is_shared_target(ts[i]) && #[trigger] ts[i].tool@ == k,
    decreases n,
{
    if n > 0 {
        lemma_shared_tools(ts, n - 1);
        let p = shared_tools(ts, n - 1);
        let q = shared_tools(ts, n);
        assert forall|k: Seq<char>| #[trigger] q.to_set().contains(k) <==> exists|i: int|
            0 <= i < n && is_shared_target(ts[i]) && #[trigger] ts[i].tool@ == k by {
            if q.to_set().contains(k) {
                let j = choose|j: int| 0 <= j < q.len() && q[j] == k;
                if j < p.len() {
                    assert(p[j] == q[j]);
                    assert(p.to_set().contains(k));
                    let i = choose|i: int| 0 <= i < n - 1 && is_shared_target(ts[i]) && #[trigger] ts[i].tool@ == k;
                    assert(0 <= i < n);
                } else {
                    assert(is_shared_target(ts[n - 1]) && ts[n - 1].tool@ == k);
                }
            }
            if exists|i: int| 0 <= i < n && is_shared_target(ts[i]) && #[trigger] ts[i].tool@ == k {
                let i = choose|i: int| 0 <= i < n && is_shared_target(ts[i]) && #[trigger] ts[i].tool@ == k;
                if i < n - 1 {
                    assert(p.to_set().contains(k));
                    let j = choose|j: int| 0 <= j < p.len() && p[j] == k;
                    assert(q[j] == k);
                } else {
                    assert(q[p.len() as int] == k);
                }
            }
        }
    }
}

proof fn lemma_profile_targets_shared(ts: Seq<LocalTarget>, t: Seq<char>)
    requires
        spec_profile_targets(ts).contains(t),
    ensures
        exists|j: int| 0 <= j < ts.len() && is_shared_target(ts[j]) && #[trigger] ts[j].tool@ == t,
{
    let n = ts.len() as int;
    lemma_shared_tools(ts, n);
    let set = Set::new(|k: Seq<char>| exists|i: int| 0 <= i < ts.len() && is_shared_target(ts[i]) && #[trigger] ts[i].tool@ == k);
    assert(shared_tools(ts, n).to_set() =~= set);
    crate::order::lemma_sorted_of_seq(shared_tools(ts, n));
    let j = choose|j: int| 0 <= j < spec_profile_targets(ts).len() && spec_profile_targets(ts)[j] == t;
    assert(sorted_of(set).to_set().contains(t));
}

proof fn lemma_local_skill_carried(st: LocalSkillState, key: Seq<char>, previous: Option<SkillV>, device: Seq<char>, now: i64)
    requires
        spec_stable_skill_key(st.record) is Some,
    ensures
        carried_from(spec_local_skill(st, key, previous, device, now), st),
{
    let s = spec_local_skill(st, key, previous, device, now);
    assert(s.targets == spec_profile_targets(st.targets@));
    assert forall|t: Seq<char>| #[trigger] s.targets.contains(t) implies exists|j: int|
        0 <= j < st.targets@.len() && is_shared_target(st.targets@[j]) && #[trigger] st.targets@[j].tool@ == t by {
        lemma_profile_targets_shared(st.targets@, t);
    }
}

proof fn lemma_entries_carried(states: Seq<LocalSkillState>, base: Seq<SkillV>, device: Seq<char>, now: i64, n: int)
    requires
        0 <= n <= states.len(),
    ensures
        forall|m: int| 0 <= m < local_entries(states, base, device, now, n).0.len() ==> exists|i: int|
            0 <= i < n && carried_from(#[trigger] local_entries(states, base, device, now, n).0[m], states[i]),
    decreases n,
{
    if n > 0 {
        lemma_entries_carried(states, base, device, now, n - 1);
        let p = local_entries(states, base, device, now, n - 1).0;
        let q = local_entries(states, base, device, now, n).0;
        let st = states[n - 1];
        match spec_stable_skill_key(st.record) {
            None => {},
            Some(key) => {
                lemma_local_skill_carried(st, key, lookup(base, key), device, now);
            },
        }
        assert forall|m: int| 0 <= m < q.len() implies exists|i: int| 0 <= i < n && carried_from(#[trigger] q[m], states[i]) by {
            if m < p.len() {
                assert(q[m] == p[m]);
                let i = choose|i: int| 0 <= i < n - 1 && carried_from(#[trigger] p[m], states[i]);
                assert(0 <= i < n);
            } else {
                assert(carried_from(q[m], states[n - 1]));
            }
        }
    }
}

proof fn lemma_tombstones_deleted(base: Seq<SkillV>, seen: Set<Seq<char>>, device: Seq<char>, now: i64, n: int)
    requires
        0 <= n <= base.len(),
    ensures
        forall|m: int| 0 <= m < tombstones(base, seen, device, now, n).len() ==> (#[trigger] tombstones(
            base,
            seen,
            device,
            now,
            n,
        )[m]).deleted_at is Some,
    decreases n,
{
    if n > 0 {
        lemma_tombstones_deleted(base, seen, device, now, n - 1);
        let p = tombstones(base, seen, device, now, n - 1);
        let q = tombstones(base, seen, device, now, n);
        assert forall|m: int| 0 <= m < q.len() implies (#[trigger] q[m]).deleted_at is Some by {
            if m < p.len() {
                assert(q[m] == p[m]);
            }
        }
    }
}

proof fn lemma_insert_by_key_contains(s: Seq<SkillV>, x: SkillV, y: SkillV)
    requires
        insert_by_key(s, x).contains(y),
    ensures
        s.contains(y) || y == x,
    decreases s.len(),
{
    if s.len() > 0 && seq_lt(x.key, s.last().key) {
        let t = insert_by_key(s.drop_last(), x);
        let j = choose|j: int| 0 <= j < insert_by_key(s, x).len() && insert_by_key(s, x)[j] == y;
        if j < t.len() {
            assert(t[j] == y);
            lemma_insert_by_key_contains(s.drop_last(), x, y);
            if s.drop_last().contains(y) {
                let i = choose|i: int| 0 <= i < s.drop_last().len() && s.drop_last()[i] == y;
                assert(s[i] == y);
            }
        } else {
            assert(s[s.len() - 1] == y);
        }
    } else if s.len() > 0 {
        let j = choose|j: int| 0 <= j < s.push(x).len() && s.push(x)[j] == y;
        if j < s.len() {
            assert(s[j] == y);
        }
    }
}

proof fn lemma_sort_by_key_contains(s: Seq<SkillV>, y: SkillV)
    requires
        sort_by_key(s).contains(y),
    ensures
        s.contains(y),
    decreases s.len(),
{
    if s.len() > 0 {
        lemma_insert_by_key_contains(sort_by_key(s.drop_last()), s.last(), y);
        if sort_by_key(s.drop_last()).contains(y) {
            lemma_sort_by_key_contains(s.drop_last(), y);
            let i = choose|i: int| 0 <= i < s.drop_last().len() && s.drop_last()[i] == y;
            assert(s[i] == y);
        } else {
            assert(s[s.len() - 1] == y);
        }
    }
}

/// A skill's profile entry shares the user's manual origin setting and
/// nothing else: it carries an origin override exactly when the stored
/// origin is a manual override, and that override is a copy of the stored
/// kind, role, provider, remote, owner, repository, branch, subpath and
/// update and publish strategies. An inferred origin stays on the device.
pub proof fn law_entry_shares_only_manual_origin(
    st: LocalSkillState,
    key: Seq<char>,
    previous: Option<SkillV>,
    device: Seq<char>,
    now: i64,
)
    ensures
        spec_local_skill(st, key, previous, device, now).origin_override is Some <==> (st.origin is Some
            && st.origin.unwrap().manual_override),
        spec_local_skill(st, key, previous, device, now).origin_override matches Some(v) ==> {
            let o = st.origin.unwrap()@;
            &&& v.origin_kind == o.origin_kind
            &&& v.origin_role == o.origin_role
            &&& v.provider == o.provider
            &&& v.remote_url == o.remote_url
            &&& v.owner == o.owner
            &&& v.repo == o.repo
            &&& v.branch == o.branch
            &&& v.subpath == o.subpath
            &&& v.update_strategy == o.update_strategy
            &&& v.publish_strategy == o.publish_strategy
        },
{
}

/// The profile of this device carries nothing but portable state: every
/// skill in it is either a tombstone or one of this device's Git or
/// package skills with only its global targets. Local-only skills, project
/// targets and custom tool directories stay on the device, and the shared
/// configuration type holds no path or credential.
pub proof fn law_local_document_is_portable(
    states: Seq<LocalSkillState>,
    base: Option<crate::profile::DocV>,
    profile_id: Seq<char>,
    device: Seq<char>,
    now: i64,
    config: ConfigV,
)
    ensures
        forall|s: SkillV| #[trigger] spec_local_document(states, base, profile_id, device, now, config).0.skills.contains(s)
            ==> s.deleted_at is Some || exists|i: int| 0 <= i < states.len() && carried_from(s, states[i]),
{
    let base_skills = match base {
        Some(b) => b.skills,
        None => Seq::empty(),
    };
    let n = states.len() as int;
    let entries = local_entries(states, base_skills, device, now, n).0;
    let seen = key_set(entries, entries.len() as int);
    let tombs = tombstones(base_skills, seen, device, now, base_skills.len() as int);
    let all = entries + tombs;
    lemma_entries_carried(states, base_skills, device, now, n);
    lemma_tombstones_deleted(base_skills, seen, device, now, base_skills.len() as int);
    assert forall|s: SkillV| #[trigger] spec_local_document(states, base, profile_id, device, now, config).0.skills.contains(s)
        implies s.deleted_at is Some || exists|i: int| 0 <= i < states.len() && carried_from(s, states[i]) by {
        lemma_sort_by_key_contains(all, s);
        let m = choose|m: int| 0 <= m < all.len() && all[m] == s;
        if m < entries.len() {
            assert(all[m] == entries[m]);
            let i = choose|i: int| 0 <= i < n && carried_from(#[trigger] entries[m], states[i]);
        } else {
            assert(all[m] == tombs[m - entries.len()]);
        }
    }
}

} // verus!
