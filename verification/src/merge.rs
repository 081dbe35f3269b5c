//! Merging profile documents: the first connection of a device to an
//! existing remote profile, and the three-way merge of a local and a remote
//! edit against their common base.

use vstd::prelude::*;
use crate::app_config::copy_rules;
use crate::app_config::copy_sources;
use crate::order::{sorted_of, sorted_strict, views, insert_sorted_unique, lemma_is_sorted_of};
use crate::profile::{
    config_eq, conflict_views, copy_skill, key_set, lookup, merge_compatible_skill_at, now_ms,
    semantic_equal, semantic_skill_equal, skill_eq, skill_views, spec_merge_compatible, ConfigV,
    ConflictStrategy, ConflictV, DocV, PortableProfileConfig, ProfileConflict, ProfileDocument,
    ProfileSkill, SkillMap, SkillV, PROFILE_VERSION,
};
use crate::text::{chars_of, concat_str, copy_opt, owned};

verus! {

pub open spec fn first_connection_reason() -> Seq<char> {
    "首次连接时本机和远端的同源 Skill 来源、revision 或删除状态不一致"@
}

pub open spec fn concurrent_change_reason() -> Seq<char> {
    "本机和远端同时修改了同一 Skill 的来源、revision 或删除状态"@
}

pub open spec fn deletion_reason() -> Seq<char> {
    "一台设备删除了 Skill，另一台设备仍保留或修改了它"@
}

pub open spec fn config_reason() -> Seq<char> {
    "本机和远端同时修改了共享配置"@
}

/// Everything the merge of one key depends on.
pub struct MergeCtx {
    pub first: bool,
    pub base: Seq<SkillV>,
    pub local: Seq<SkillV>,
    pub remote: Seq<SkillV>,
    pub device: Seq<char>,
    pub now: i64,
    pub strategy: ConflictStrategy,
}

/// The side a conflict is resolved to.
pub open spec fn pick_side<T>(strategy: ConflictStrategy, l: T, r: T) -> T {
    if strategy == ConflictStrategy::Local { l } else { r }
}

/// First connection: the remote skill stands unless the local one differs
/// from it; compatible edits are unioned, incompatible ones are a conflict.
pub open spec fn first_outcome(
    l: Option<SkillV>,
    r: Option<SkillV>,
    device: Seq<char>,
    now: i64,
    strategy: ConflictStrategy,
) -> (Option<SkillV>, Option<Seq<char>>) {
    match l {
        None => (r, None),
        Some(ls) => match r {
            None => (Some(ls), None),
            Some(rs) => if semantic_equal(rs, ls) {
                (Some(rs), None)
            } else {
                match spec_merge_compatible(ls, rs, device, now) {
                    Some(u) => (Some(u), None),
                    None => (Some(pick_side(strategy, ls, rs)), Some(first_connection_reason())),
                }
            },
        },
    }
}

/// Three-way: a side that left the base unchanged yields to the other;
/// when both changed, compatible edits are unioned and anything else is a
/// conflict resolved by the strategy.
pub open spec fn three_way_outcome(
    b: Option<SkillV>,
    l: Option<SkillV>,
    r: Option<SkillV>,
    device: Seq<char>,
    now: i64,
    strategy: ConflictStrategy,
) -> (Option<SkillV>, Option<Seq<char>>) {
    if l == b {
        (r, None)
    } else if r == b || l == r {
        (l, None)
    } else {
        match (l, r) {
            (Some(ls), Some(rs)) => match spec_merge_compatible(ls, rs, device, now) {
                Some(u) => (Some(u), None),
                None => (Some(pick_side(strategy, ls, rs)), Some(concurrent_change_reason())),
            },
            _ => (
                pick_side(
                    strategy,
                    if l is Some { l } else { r },
                    if r is Some { r } else { l },
                ),
                Some(deletion_reason()),
            ),
        }
    }
}

/// The skill kept under key `k` and the conflict recorded for it.
pub open spec fn outcome(c: MergeCtx, k: Seq<char>) -> (Option<SkillV>, Option<Seq<char>>) {
    if c.first {
        first_outcome(lookup(c.local, k), lookup(c.remote, k), c.device, c.now, c.strategy)
    } else {
        three_way_outcome(lookup(c.base, k), lookup(c.local, k), lookup(c.remote, k), c.device, c.now, c.strategy)
    }
}

/// Every key of the three documents.
pub open spec fn all_keys(c: MergeCtx) -> Set<Seq<char>> {
    key_set(c.base, c.base.len() as int) + key_set(c.local, c.local.len() as int) + key_set(
        c.remote,
        c.remote.len() as int,
    )
}

/// The keys visited by a merge, in order.
pub open spec fn merge_keys(c: MergeCtx) -> Seq<Seq<char>> {
    sorted_of(all_keys(c))
}

/// The skills kept for `keys`, in their order.
pub open spec fn kept(c: MergeCtx, keys: Seq<Seq<char>>) -> Seq<SkillV>
    decreases keys.len(),
{
    if keys.len() == 0 {
        Seq::empty()
    } else {
        let prev = kept(c, keys.drop_last());
        match outcome(c, keys.last()).0 {
            Some(s) => prev.push(s),
            None => prev,
        }
    }
}

/// The conflict recorded for the skill under `k`.
pub open spec fn skill_conflict(k: Seq<char>, reason: Seq<char>) -> ConflictV {
    ConflictV { path: "skills."@ + k, reason }
}

/// The conflicts recorded for `keys`, in their order.
pub open spec fn key_conflicts(c: MergeCtx, keys: Seq<Seq<char>>) -> Seq<ConflictV>
    decreases keys.len(),
{
    if keys.len() == 0 {
        Seq::empty()
    } else {
        let prev = key_conflicts(c, keys.drop_last());
        match outcome(c, keys.last()).1 {
            Some(reason) => prev.push(skill_conflict(keys.last(), reason)),
            None => prev,
        }
    }
}

/// The merged shared configuration, and whether both sides changed it
/// differently: a side that left it as in the base takes the other side's
/// value whatever the strategy; only a reported conflict is settled by the
/// strategy (the remote value unless the local one is asked for).
pub open spec fn merged_config(b: ConfigV, l: ConfigV, r: ConfigV, strategy: ConflictStrategy) -> (ConfigV, bool) {
    if l == b {
        (r, false)
    } else if r == b || l == r {
        (l, false)
    } else {
        (pick_side(strategy, l, r), true)
    }
}

pub open spec fn doc_view(d: Option<&ProfileDocument>) -> Option<DocV> {
    match d {
        Some(x) => Some(x@),
        None => None,
    }
}

/// What the per-key merge of three documents depends on: without a base
/// the devices meet for the first time.
pub open spec fn merge_ctx(
    base: Option<DocV>,
    local: DocV,
    remote: Option<DocV>,
    device: Seq<char>,
    strategy: ConflictStrategy,
    now: i64,
) -> MergeCtx {
    match base {
        None => MergeCtx {
            first: true,
            base: Seq::empty(),
            local: local.skills,
            remote: match remote {
                Some(rd) => rd.skills,
                None => Seq::empty(),
            },
            device,
            now,
            strategy,
        },
        Some(bd) => MergeCtx {
            first: false,
            base: bd.skills,
            local: local.skills,
            remote: match remote {
                Some(rd) => rd.skills,
                None => bd.skills,
            },
            device,
            now,
            strategy,
        },
    }
}

/// The merge of a local profile with the remote one, against the base that
/// both started from; at time `now`.
pub open spec fn spec_merge_documents(
    base: Option<DocV>,
    local: DocV,
    remote: Option<DocV>,
    device: Seq<char>,
    strategy: ConflictStrategy,
    now: i64,
) -> (DocV, Seq<ConflictV>) {
    let c = merge_ctx(base, local, remote, device, strategy, now);
    match base {
        None => match remote {
            Some(rd) => (
                DocV { skills: kept(c, merge_keys(c)), updated_at: now, updated_by: device, ..rd },
                key_conflicts(c, merge_keys(c)),
            ),
            None => (local, Seq::empty()),
        },
        Some(bd) => {
            let rd = match remote {
                Some(x) => x,
                None => bd,
            };
            let (cfg, clash) = merged_config(bd.config, local.config, rd.config, strategy);
            let config_conflicts = if clash {
                seq![ConflictV { path: "config"@, reason: config_reason() }]
            } else {
                Seq::empty()
            };
            (
                DocV {
                    profile_version: PROFILE_VERSION,
                    profile_id: rd.profile_id,
                    generation: if rd.generation >= local.generation { rd.generation } else { local.generation },
                    updated_at: now,
                    updated_by: device,
                    config: cfg,
                    config_updated_at: if cfg == local.config { local.config_updated_at } else { rd.config_updated_at },
                    config_updated_by: if cfg == local.config { local.config_updated_by } else { rd.config_updated_by },
                    skills: kept(c, merge_keys(c)),
                },
                config_conflicts + key_conflicts(c, merge_keys(c)),
            )
        },
    }
}

pub open spec fn ref_view(o: Option<&ProfileSkill>) -> Option<SkillV> {
    match o {
        Some(x) => Some(x@),
        None => None,
    }
}

pub open spec fn owned_view(o: Option<ProfileSkill>) -> Option<SkillV> {
    match o {
        Some(x) => Some(x@),
        None => None,
    }
}

pub open spec fn reason_view(o: Option<String>) -> Option<Seq<char>> {
    match o {
        Some(x) => Some(x@),
        None => None,
    }
}

fn opt_skill_eq(a: Option<&ProfileSkill>, b: Option<&ProfileSkill>) -> (r: bool)
    ensures
        r == (ref_view(a) == ref_view(b)),
{
    match (a, b) {
        (Some(x), Some(y)) => skill_eq(x, y),
        (None, None) => true,
        _ => false,
    }
}

fn clone_ref(a: Option<&ProfileSkill>) -> (r: Option<ProfileSkill>)
    ensures
        owned_view(r) == ref_view(a),
{
    match a {
        Some(x) => Some(copy_skill(x)),
        None => None,
    }
}

fn prefers_local(strategy: ConflictStrategy) -> (r: bool)
    ensures
        r == (strategy == ConflictStrategy::Local),
{
    match strategy {
        ConflictStrategy::Local => true,
        _ => false,
    }
}

fn first_outcome_exec(
    l: Option<&ProfileSkill>,
    r: Option<&ProfileSkill>,
    device_id: &str,
    now: i64,
    strategy: ConflictStrategy,
) -> (res: (Option<ProfileSkill>, Option<String>))
    ensures
        (owned_view(res.0), reason_view(res.1)) == first_outcome(ref_view(l), ref_view(r), device_id@, now, strategy),
{
    match l {
        None => (clone_ref(r), None),
        Some(ls) => match r {
            None => (Some(copy_skill(ls)), None),
            Some(rs) => {
                if semantic_skill_equal(rs, ls) {
                    (Some(copy_skill(rs)), None)
                } else {
                    match merge_compatible_skill_at(ls, rs, device_id, now) {
                        Some(u) => (Some(u), None),
                        None => {
                            let kept = if prefers_local(strategy) { copy_skill(ls) } else { copy_skill(rs) };
                            (Some(kept), Some(owned("首次连接时本机和远端的同源 Skill 来源、revision 或删除状态不一致")))
                        },
                    }
                }
            },
        },
    }
}

fn three_way_outcome_exec(
    b: Option<&ProfileSkill>,
    l: Option<&ProfileSkill>,
    r: Option<&ProfileSkill>,
    device_id: &str,
    now: i64,
    strategy: ConflictStrategy,
) -> (res: (Option<ProfileSkill>, Option<String>))
    ensures
        (owned_view(res.0), reason_view(res.1)) == three_way_outcome(
            ref_view(b),
            ref_view(l),
            ref_view(r),
            device_id@,
            now,
            strategy,
        ),
{
    if opt_skill_eq(l, b) {
        (clone_ref(r), None)
    } else if opt_skill_eq(r, b) || opt_skill_eq(l, r) {
        (clone_ref(l), None)
    } else {
        match (l, r) {
            (Some(ls), Some(rs)) => match merge_compatible_skill_at(ls, rs, device_id, now) {
                Some(u) => (Some(u), None),
                None => {
                    let kept = if prefers_local(strategy) { copy_skill(ls) } else { copy_skill(rs) };
                    (Some(kept), Some(owned("本机和远端同时修改了同一 Skill 的来源、revision 或删除状态")))
                },
            },
            _ => {
                let kept = if prefers_local(strategy) {
                    if l.is_some() { clone_ref(l) } else { clone_ref(r) }
                } else {
                    if r.is_some() { clone_ref(r) } else { clone_ref(l) }
                };
                (kept, Some(owned("一台设备删除了 Skill，另一台设备仍保留或修改了它")))
            },
        }
    }
}

/// Add the strings of `more` to a strictly sorted key list.
fn add_keys(keys: &mut Vec<String>, more: &Vec<String>)
    requires
        sorted_strict(views(old(keys)@)),
    ensures
        sorted_strict(views(final(keys)@)),
        views(final(keys)@).to_set() == views(old(keys)@).to_set() + views(more@).to_set(),
{
    let ghost start = views(keys@).to_set();
    let mut i: usize = 0;
    while i < more.len()
        invariant
            i <= more@.len(),
            sorted_strict(views(keys@)),
            views(keys@).to_set() == start + views(more@.take(i as int)).to_set(),
        decreases more.len() - i,
    {
        let ghost before = views(keys@).to_set();
        let x = more[i].clone();
        insert_sorted_unique(keys, x);
        proof {
            assert(views(more@.take(i + 1)) =~= views(more@.take(i as int)).push(more@[i as int]@));
            views(more@.take(i as int)).lemma_push_to_set_commute(more@[i as int]@);
            assert(views(keys@).to_set() =~= start + views(more@.take(i + 1)).to_set());
        }
        i = i + 1;
    }
    assert(more@.take(more@.len() as int) =~= more@);
}

/// Merge the skill lists of three documents key by key, in key order.
fn merge_skill_lists(
    first: bool,
    base: &Vec<ProfileSkill>,
    local: &Vec<ProfileSkill>,
    remote: &Vec<ProfileSkill>,
    device_id: &str,
    now: i64,
    strategy: ConflictStrategy,
) -> (res: (Vec<ProfileSkill>, Vec<ProfileConflict>))
    ensures
        ({
            let c = MergeCtx {
                first,
                base: skill_views(base@),
                local: skill_views(local@),
                remote: skill_views(remote@),
                device: device_id@,
                now,
                strategy,
            };
            skill_views(res.0@) == kept(c, merge_keys(c)) && conflict_views(res.1@) == key_conflicts(c, merge_keys(c))
        }),
{
    let ghost c = MergeCtx {
        first,
        base: skill_views(base@),
        local: skill_views(local@),
        remote: skill_views(remote@),
        device: device_id@,
        now,
        strategy,
    };
    let bm = SkillMap::build(base);
    let lm = SkillMap::build(local);
    let rm = SkillMap::build(remote);
    let mut keys: Vec<String> = Vec::new();
    add_keys(&mut keys, &bm.keys);
    add_keys(&mut keys, &lm.keys);
    add_keys(&mut keys, &rm.keys);
    let ghost kv = views(keys@);
    proof {
        assert(kv.to_set() =~= all_keys(c));
        lemma_is_sorted_of(kv);
    }
    let mut out: Vec<ProfileSkill> = Vec::new();
    let mut conflicts: Vec<ProfileConflict> = Vec::new();
    let mut j: usize = 0;
    while j < keys.len()
        invariant
            j <= keys@.len(),
            kv == views(keys@),
            kv == merge_keys(c),
            c.first == first && c.device == device_id@ && c.now == now && c.strategy == strategy,
            bm.indexes(c.base),
            lm.indexes(c.local),
            rm.indexes(c.remote),
            skill_views(out@) == kept(c, kv.take(j as int)),
            conflict_views(conflicts@) == key_conflicts(c, kv.take(j as int)),
        decreases keys.len() - j,
    {
        let k = chars_of(keys[j].as_str());
        assert(k@ == kv[j as int]);
        let bs = bm.get(&k, Ghost(c.base));
        let ls = lm.get(&k, Ghost(c.local));
        let rs = rm.get(&k, Ghost(c.remote));
        let (s, reason) = if first {
            first_outcome_exec(ls, rs, device_id, now, strategy)
        } else {
            three_way_outcome_exec(bs, ls, rs, device_id, now, strategy)
        };
        proof {
            assert(kv.take(j + 1).drop_last() =~= kv.take(j as int));
            assert(kv.take(j + 1).last() == k@);
        }
        let ghost out0 = skill_views(out@);
        let ghost conf0 = conflict_views(conflicts@);
        match s {
            Some(x) => {
                out.push(x);
                assert(skill_views(out@) =~= out0.push(out@[out@.len() - 1]@));
            },
            None => {},
        }
        match reason {
            Some(rsn) => {
                let path = concat_str("skills.", keys[j].as_str());
                conflicts.push(ProfileConflict { path, reason: rsn });
                assert(conflict_views(conflicts@) =~= conf0.push(conflicts@[conflicts@.len() - 1]@));
            },
            None => {},
        }
        j = j + 1;
    }
    assert(kv.take(kv.len() as int) =~= kv);
    (out, conflicts)
}

fn copy_config(c: &PortableProfileConfig) -> (r: PortableProfileConfig)
    ensures
        r@ == c@,
{
    PortableProfileConfig {
        language: copy_opt(&c.language),
        git_cache_cleanup_days: c.git_cache_cleanup_days,
        git_cache_ttl_secs: c.git_cache_ttl_secs,
        origin_rules: copy_rules(&c.origin_rules),
        explore_sources: copy_sources(&c.explore_sources),
    }
}

fn copy_skills(v: &Vec<ProfileSkill>) -> (r: Vec<ProfileSkill>)
    ensures
        skill_views(r@) == skill_views(v@),
{
    let mut r: Vec<ProfileSkill> = Vec::new();
    let mut i: usize = 0;
    while i < v.len()
        invariant
            i <= v@.len(),
            skill_views(r@) == skill_views(v@.take(i as int)),
        decreases v.len() - i,
    {
        let ghost r0 = skill_views(r@);
        let x = copy_skill(&v[i]);
        r.push(x);
        assert(skill_views(v@.take(i + 1)) =~= skill_views(v@.take(i as int)).push(v@[i as int]@));
        assert(skill_views(r@) =~= r0.push(v@[i as int]@));
        i = i + 1;
    }
    assert(v@.take(v@.len() as int) =~= v@);
    r
}

/// A copy of a profile document.
pub fn copy_document(d: &ProfileDocument) -> (r: ProfileDocument)
    ensures
        r@ == d@,
{
    ProfileDocument {
        profile_version: d.profile_version,
        profile_id: d.profile_id.clone(),
        generation: d.generation,
        updated_at: d.updated_at,
        updated_by: d.updated_by.clone(),
        config: copy_config(&d.config),
        config_updated_at: d.config_updated_at,
        config_updated_by: d.config_updated_by.clone(),
        skills: copy_skills(&d.skills),
    }
}

/// Merge the local profile with the remote one against their common base,
/// at time `now`: without a base the devices meet for the first time and
/// the remote profile is extended by the local skills; with one, each key
/// and the shared configuration go three ways.  Returns the merged profile
/// and the conflicts that the strategy resolved.
pub fn merge_documents_at(
    base: Option<&ProfileDocument>,
    local: &ProfileDocument,
    remote: Option<&ProfileDocument>,
    device_id: &str,
    strategy: ConflictStrategy,
    now: i64,
) -> (r: (ProfileDocument, Vec<ProfileConflict>))
    ensures
        (r.0@, conflict_views(r.1@)) == spec_merge_documents(
            doc_view(base),
            local@,
            doc_view(remote),
            device_id@,
            strategy,
            now,
        ),
{
    match base {
        None => match remote {
            Some(rd) => {
                let empty: Vec<ProfileSkill> = Vec::new();
                let (skills, conflicts) = merge_skill_lists(true, &empty, &local.skills, &rd.skills, device_id, now, strategy);
                let mut merged = copy_document(rd);
                merged.skills = skills;
                merged.updated_at = now;
                merged.updated_by = owned(device_id);
                proof {
                    assert(skill_views(empty@) =~= Seq::<SkillV>::empty());
                }
                (merged, conflicts)
            },
            None => (copy_document(local), Vec::new()),
        },
        Some(bd) => {
            let rd = match remote {
                Some(x) => x,
                None => bd,
            };
            let mut conflicts: Vec<ProfileConflict> = Vec::new();
            let config = if config_eq(&local.config, &bd.config) {
                copy_config(&rd.config)
            } else if config_eq(&rd.config, &bd.config) || config_eq(&local.config, &rd.config) {
                copy_config(&local.config)
            } else {
                conflicts.push(ProfileConflict { path: owned("config"), reason: owned("本机和远端同时修改了共享配置") });
                if prefers_local(strategy) { copy_config(&local.config) } else { copy_config(&rd.config) }
            };
            let ghost cfl = conflict_views(conflicts@);
            let (skills, skill_conflicts) = merge_skill_lists(false, &bd.skills, &local.skills, &rd.skills, device_id, now, strategy);
            let mut all = conflicts;
            let mut i: usize = 0;
            while i < skill_conflicts.len()
                invariant
                    i <= skill_conflicts@.len(),
                    conflict_views(all@) == cfl + conflict_views(skill_conflicts@.take(i as int)),
                decreases skill_conflicts.len() - i,
            {
                let x = ProfileConflict { path: skill_conflicts[i].path.clone(), reason: skill_conflicts[i].reason.clone() };
                let ghost a0 = conflict_views(all@);
                all.push(x);
                assert(conflict_views(skill_conflicts@.take(i + 1)) =~= conflict_views(skill_conflicts@.take(i as int)).push(skill_conflicts@[i as int]@));
                assert(conflict_views(all@) =~= a0.push(skill_conflicts@[i as int]@));
                assert(conflict_views(all@) =~= cfl + conflict_views(skill_conflicts@.take(i + 1)));
                i = i + 1;
            }
            assert(skill_conflicts@.take(skill_conflicts@.len() as int) =~= skill_conflicts@);
            let same_as_local = config_eq(&config, &local.config);
            let doc = ProfileDocument {
                profile_version: PROFILE_VERSION,
                profile_id: rd.profile_id.clone(),
                generation: if rd.generation >= local.generation { rd.generation } else { local.generation },
                updated_at: now,
                updated_by: owned(device_id),
                config_updated_at: if same_as_local { local.config_updated_at } else { rd.config_updated_at },
                config_updated_by: if same_as_local { local.config_updated_by.clone() } else { rd.config_updated_by.clone() },
                config,
                skills,
            };
            (doc, all)
        },
    }
}

/// Merge the local profile with the remote one against their common base,
/// stamped with the current time.
pub fn merge_documents(
    base: Option<&ProfileDocument>,
    local: &ProfileDocument,
    remote: Option<&ProfileDocument>,
    device_id: &str,
    strategy: ConflictStrategy,
) -> (r: (ProfileDocument, Vec<ProfileConflict>))
    ensures
        exists|now: i64|
            (r.0@, conflict_views(r.1@)) == #[trigger] spec_merge_documents(
                doc_view(base),
                local@,
                doc_view(remote),
                device_id@,
                strategy,
                now,
            ),
{
    let now = now_ms();
    merge_documents_at(base, local, remote, device_id, strategy, now)
}

} // verus!
