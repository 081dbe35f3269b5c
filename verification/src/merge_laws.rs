//! What merging profiles guarantees, key by key.

use vstd::prelude::*;
use crate::merge::{
    all_keys, concurrent_change_reason, deletion_reason, first_outcome, key_conflicts, kept, merge_ctx,
    merge_keys, outcome, pick_side, skill_conflict, spec_merge_documents, three_way_outcome, MergeCtx,
};
use crate::order::{lemma_lt_irreflexive, lemma_lt_transitive, lemma_sorted_of_seq, seq_lt, sorted_strict};
use crate::profile::{
    identity_equal, key_set, last_with_key, lemma_last_with_key, lookup, semantic_equal, spec_merge_compatible, spec_union_sorted,
    ConflictStrategy, ConflictV, DocV, SkillV,
};

verus! {

/// The keys of a list of skills, in order.
pub open spec fn skill_keys(s: Seq<SkillV>) -> Seq<Seq<char>> {
    s.map_values(|x: SkillV| x.key)
}

proof fn lemma_key_set_is_keys(s: Seq<SkillV>)
    ensures
        key_set(s, s.len() as int) == skill_keys(s).to_set(),
{
    assert forall|k: Seq<char>| key_set(s, s.len() as int).contains(k) <==> skill_keys(s).to_set().contains(k) by {
        if key_set(s, s.len() as int).contains(k) {
            let i = choose|i: int| 0 <= i < s.len() && #[trigger] s[i].key == k;
            assert(skill_keys(s)[i] == k);
        }
        if skill_keys(s).contains(k) {
            let i = choose|i: int| 0 <= i < skill_keys(s).len() && skill_keys(s)[i] == k;
            assert(s[i].key == k);
        }
    }
    assert(key_set(s, s.len() as int) =~= skill_keys(s).to_set());
}

proof fn lemma_concat3_to_set(a: Seq<Seq<char>>, b: Seq<Seq<char>>, c: Seq<Seq<char>>)
    ensures
        (a + b + c).to_set() == a.to_set() + b.to_set() + c.to_set(),
{
    let v = a + b + c;
    assert forall|k: Seq<char>| v.to_set().contains(k) <==> (a.to_set() + b.to_set() + c.to_set()).contains(k) by {
        if v.contains(k) {
            let i = choose|i: int| 0 <= i < v.len() && v[i] == k;
            if i < a.len() {
                assert(a[i] == k);
            } else if i < a.len() + b.len() {
                assert(b[i - a.len()] == k);
            } else {
                assert(c[i - a.len() - b.len()] == k);
            }
        }
        if a.contains(k) {
            let i = choose|i: int| 0 <= i < a.len() && a[i] == k;
            assert(v[i] == k);
        }
        if b.contains(k) {
            let i = choose|i: int| 0 <= i < b.len() && b[i] == k;
            assert(v[a.len() + i] == k);
        }
        if c.contains(k) {
            let i = choose|i: int| 0 <= i < c.len() && c[i] == k;
            assert(v[a.len() + b.len() + i] == k);
        }
    }
    assert(v.to_set() =~= a.to_set() + b.to_set() + c.to_set());
}

/// The merge visits every key of the three documents once, in order.
proof fn lemma_merge_keys(c: MergeCtx)
    ensures
        sorted_strict(merge_keys(c)),
        merge_keys(c).to_set() == all_keys(c),
{
    lemma_key_set_is_keys(c.base);
    lemma_key_set_is_keys(c.local);
    lemma_key_set_is_keys(c.remote);
    let v = skill_keys(c.base) + skill_keys(c.local) + skill_keys(c.remote);
    lemma_concat3_to_set(skill_keys(c.base), skill_keys(c.local), skill_keys(c.remote));
    lemma_sorted_of_seq(v);
}

proof fn lemma_last_with_key_push(s: Seq<SkillV>, x: SkillV, k: Seq<char>, n: int)
    requires
        0 <= n <= s.len(),
    ensures
        last_with_key(s.push(x), k, n) == last_with_key(s, k, n),
    decreases n,
{
    if n > 0 {
        assert(s.push(x)[n - 1] == s[n - 1]);
        lemma_last_with_key_push(s, x, k, n - 1);
    }
}

proof fn lemma_lookup_push(s: Seq<SkillV>, x: SkillV, k: Seq<char>)
    ensures
        lookup(s.push(x), k) == (if x.key == k { Some(x) } else { lookup(s, k) }),
{
    assert(s.push(x)[s.len() as int] == x);
    lemma_last_with_key_push(s, x, k, s.len() as int);
}

proof fn lemma_lookup_key(s: Seq<SkillV>, k: Seq<char>)
    ensures
        lookup(s, k) is Some <==> key_set(s, s.len() as int).contains(k),
        lookup(s, k) is Some ==> lookup(s, k).unwrap().key == k,
{
    lemma_last_with_key(s, k, s.len() as int);
}

/// The skill kept under a key carries that key.
proof fn lemma_outcome_key(c: MergeCtx, k: Seq<char>)
    ensures
        outcome(c, k).0 is Some ==> outcome(c, k).0.unwrap().key == k,
{
    lemma_lookup_key(c.base, k);
    lemma_lookup_key(c.local, k);
    lemma_lookup_key(c.remote, k);
}

/// A key in none of the documents yields nothing.
proof fn lemma_outcome_absent(c: MergeCtx, k: Seq<char>)
    requires
        !all_keys(c).contains(k),
    ensures
        outcome(c, k) == (None::<SkillV>, None::<Seq<char>>),
{
    lemma_lookup_key(c.base, k);
    lemma_lookup_key(c.local, k);
    lemma_lookup_key(c.remote, k);
}

proof fn lemma_kept(c: MergeCtx, keys: Seq<Seq<char>>)
    requires
        sorted_strict(keys),
    ensures
        forall|k: Seq<char>| #[trigger] lookup(kept(c, keys), k) == (if keys.contains(k) { outcome(c, k).0 } else { None }),
        forall|i: int| 0 <= i < kept(c, keys).len() ==> keys.contains(#[trigger] kept(c, keys)[i].key),
        sorted_strict(skill_keys(kept(c, keys))),
    decreases keys.len(),
{
    let ks = kept(c, keys);
    if keys.len() == 0 {
        assert forall|k: Seq<char>| #[trigger] lookup(ks, k) == (if keys.contains(k) { outcome(c, k).0 } else { None }) by {
        }
        assert(skill_keys(ks) =~= Seq::<Seq<char>>::empty());
    } else {
        let init = keys.drop_last();
        let last = keys.last();
        assert(sorted_strict(init)) by {
            assert forall|i: int, j: int| 0 <= i < j < init.len() implies seq_lt(#[trigger] init[i], #[trigger] init[j]) by {
                assert(init[i] == keys[i] && init[j] == keys[j]);
            }
        }
        lemma_kept(c, init);
        let prev = kept(c, init);
        assert forall|j: int| 0 <= j < init.len() implies seq_lt(#[trigger] init[j], last) by {
            assert(init[j] == keys[j]);
            assert(last == keys[keys.len() - 1]);
        }
        assert(!init.contains(last)) by {
            if init.contains(last) {
                let j = choose|j: int| 0 <= j < init.len() && init[j] == last;
                assert(seq_lt(init[j], last));
                lemma_lt_irreflexive(last);
            }
        }
        assert forall|k: Seq<char>| keys.contains(k) <==> (init.contains(k) || k == last) by {
            if keys.contains(k) {
                let j = choose|j: int| 0 <= j < keys.len() && keys[j] == k;
                if j < keys.len() - 1 {
                    assert(init[j] == k);
                }
            }
            if init.contains(k) {
                let j = choose|j: int| 0 <= j < init.len() && init[j] == k;
                assert(keys[j] == k);
            }
            if k == last {
                assert(keys[keys.len() - 1] == k);
            }
        }
        lemma_outcome_key(c, last);
        match outcome(c, last).0 {
            Some(s) => {
                assert(ks == prev.push(s));
                assert forall|k: Seq<char>| #[trigger] lookup(ks, k) == (if keys.contains(k) { outcome(c, k).0 } else { None }) by {
                    lemma_lookup_push(prev, s, k);
                    assert(lookup(prev, k) == (if init.contains(k) { outcome(c, k).0 } else { None }));
                }
                assert forall|i: int| 0 <= i < ks.len() implies keys.contains(#[trigger] ks[i].key) by {
                    if i < prev.len() {
                        assert(ks[i] == prev[i]);
                        assert(init.contains(prev[i].key));
                    }
                }
                assert(skill_keys(ks) =~= skill_keys(prev).push(last));
                assert forall|i: int, j: int| 0 <= i < j < skill_keys(ks).len() implies seq_lt(
                    #[trigger] skill_keys(ks)[i],
                    #[trigger] skill_keys(ks)[j],
                ) by {
                    if j < prev.len() {
                        assert(skill_keys(ks)[i] == skill_keys(prev)[i]);
                        assert(skill_keys(ks)[j] == skill_keys(prev)[j]);
                    } else {
                        assert(skill_keys(ks)[i] == prev[i].key);
                        assert(init.contains(prev[i].key));
                        let m = choose|m: int| 0 <= m < init.len() && init[m] == prev[i].key;
                        assert(seq_lt(init[m], last));
                    }
                }
            },
            None => {
                assert(ks == prev);
                assert forall|k: Seq<char>| #[trigger] lookup(ks, k) == (if keys.contains(k) { outcome(c, k).0 } else { None }) by {
                    assert(lookup(prev, k) == (if init.contains(k) { outcome(c, k).0 } else { None }));
                }
                assert forall|i: int| 0 <= i < ks.len() implies keys.contains(#[trigger] ks[i].key) by {
                    assert(init.contains(prev[i].key));
                }
            },
        }
    }
}

proof fn lemma_no_conflicts(c: MergeCtx, keys: Seq<Seq<char>>)
    requires
        forall|k: Seq<char>| keys.contains(k) ==> (#[trigger] outcome(c, k)).1 is None,
    ensures
        key_conflicts(c, keys) == Seq::<ConflictV>::empty(),
    decreases keys.len(),
{
    if keys.len() > 0 {
        let init = keys.drop_last();
        assert forall|k: Seq<char>| init.contains(k) implies (#[trigger] outcome(c, k)).1 is None by {
            let j = choose|j: int| 0 <= j < init.len() && init[j] == k;
            assert(keys[j] == k);
        }
        lemma_no_conflicts(c, init);
        assert(keys[keys.len() - 1] == keys.last());
        assert(outcome(c, keys.last()).1 is None);
    }
}

proof fn lemma_conflict_recorded(c: MergeCtx, keys: Seq<Seq<char>>, k: Seq<char>)
    requires
        keys.contains(k),
        outcome(c, k).1 is Some,
    ensures
        key_conflicts(c, keys).contains(skill_conflict(k, outcome(c, k).1.unwrap())),
    decreases keys.len(),
{
    let init = keys.drop_last();
    let prev = key_conflicts(c, init);
    if keys.last() == k {
        assert(key_conflicts(c, keys) == prev.push(skill_conflict(k, outcome(c, k).1.unwrap())));
        assert(key_conflicts(c, keys)[prev.len() as int] == skill_conflict(k, outcome(c, k).1.unwrap()));
    } else {
        let j = choose|j: int| 0 <= j < keys.len() && keys[j] == k;
        assert(j < keys.len() - 1);
        assert(init[j] == k);
        lemma_conflict_recorded(c, init, k);
        let m = choose|m: int| 0 <= m < prev.len() && prev[m] == skill_conflict(k, outcome(c, k).1.unwrap());
        match outcome(c, keys.last()).1 {
            Some(r) => {
                assert(key_conflicts(c, keys) == prev.push(skill_conflict(keys.last(), r)));
                assert(key_conflicts(c, keys)[m] == prev[m]);
            },
            None => {},
        }
    }
}

/// Each key of a merged profile holds exactly what merging that key alone
/// gives: the merge treats keys independently of one another.
pub proof fn law_merge_is_per_key(
    base: Option<DocV>,
    local: DocV,
    remote: Option<DocV>,
    device: Seq<char>,
    strategy: ConflictStrategy,
    now: i64,
    k: Seq<char>,
)
    requires
        base is Some || remote is Some,
    ensures
        lookup(spec_merge_documents(base, local, remote, device, strategy, now).0.skills, k)
            == outcome(merge_ctx(base, local, remote, device, strategy, now), k).0,
{
    let c = merge_ctx(base, local, remote, device, strategy, now);
    lemma_merge_keys(c);
    lemma_kept(c, merge_keys(c));
    assert(lookup(kept(c, merge_keys(c)), k) == (if merge_keys(c).contains(k) { outcome(c, k).0 } else { None }));
    if !merge_keys(c).contains(k) {
        assert(!merge_keys(c).to_set().contains(k));
        lemma_outcome_absent(c, k);
    }
}

/// The skills of a merged profile are ordered by key, one per key.
pub proof fn law_merged_skills_sorted(
    base: Option<DocV>,
    local: DocV,
    remote: Option<DocV>,
    device: Seq<char>,
    strategy: ConflictStrategy,
    now: i64,
)
    requires
        base is Some || remote is Some,
    ensures
        sorted_strict(skill_keys(spec_merge_documents(base, local, remote, device, strategy, now).0.skills)),
{
    let c = merge_ctx(base, local, remote, device, strategy, now);
    lemma_merge_keys(c);
    lemma_kept(c, merge_keys(c));
}

/// When every skill and the shared configuration were changed on at most
/// one side (or identically on both), the three-way merge records no
/// conflict and each key takes the changed side: independent additions on
/// two devices both survive, and a deletion propagates when the other
/// device left the skill untouched.
pub proof fn law_one_sided_changes_merge_cleanly(
    base: DocV,
    local: DocV,
    remote: DocV,
    device: Seq<char>,
    strategy: ConflictStrategy,
    now: i64,
)
    requires
        forall|k: Seq<char>|
            lookup(local.skills, k) == lookup(base.skills, k) || lookup(remote.skills, k) == lookup(base.skills, k)
                || lookup(local.skills, k) == lookup(remote.skills, k),
        local.config == base.config || remote.config == base.config || local.config == remote.config,
    ensures
        spec_merge_documents(Some(base), local, Some(remote), device, strategy, now).1 == Seq::<ConflictV>::empty(),
        forall|k: Seq<char>|
            #[trigger] lookup(spec_merge_documents(Some(base), local, Some(remote), device, strategy, now).0.skills, k)
                == (if lookup(local.skills, k) == lookup(base.skills, k) {
                lookup(remote.skills, k)
            } else {
                lookup(local.skills, k)
            }),
{
    let c = merge_ctx(Some(base), local, Some(remote), device, strategy, now);
    assert forall|k: Seq<char>| merge_keys(c).contains(k) implies (#[trigger] outcome(c, k)).1 is None by {
        assert(lookup(local.skills, k) == lookup(base.skills, k) || lookup(remote.skills, k) == lookup(base.skills, k)
            || lookup(local.skills, k) == lookup(remote.skills, k));
    }
    lemma_no_conflicts(c, merge_keys(c));
    let r = spec_merge_documents(Some(base), local, Some(remote), device, strategy, now);
    assert(r.1 =~= Seq::<ConflictV>::empty());
    assert forall|k: Seq<char>| #[trigger] lookup(r.0.skills, k) == (if lookup(local.skills, k) == lookup(base.skills, k) {
        lookup(remote.skills, k)
    } else {
        lookup(local.skills, k)
    }) by {
        law_merge_is_per_key(Some(base), local, Some(remote), device, strategy, now, k);
        assert(lookup(local.skills, k) == lookup(base.skills, k) || lookup(remote.skills, k) == lookup(base.skills, k)
            || lookup(local.skills, k) == lookup(remote.skills, k));
    }
}

/// When the devices' concurrent edits of each skill agree on its source,
/// revision and other identity fields (and the rest changed on at most one
/// side), the three-way merge records no conflict, and each skill both
/// changed holds the union of the two sides' targets and of their tags.
pub proof fn law_compatible_edits_are_united(
    base: DocV,
    local: DocV,
    remote: DocV,
    device: Seq<char>,
    strategy: ConflictStrategy,
    now: i64,
)
    requires
        forall|k: Seq<char>|
            lookup(local.skills, k) == lookup(base.skills, k) || lookup(remote.skills, k) == lookup(base.skills, k)
                || lookup(local.skills, k) == lookup(remote.skills, k) || (lookup(local.skills, k) is Some
                && lookup(remote.skills, k) is Some && identity_equal(
                lookup(local.skills, k).unwrap(),
                lookup(remote.skills, k).unwrap(),
            )),
        local.config == base.config || remote.config == base.config || local.config == remote.config,
    ensures
        spec_merge_documents(Some(base), local, Some(remote), device, strategy, now).1 == Seq::<ConflictV>::empty(),
        forall|k: Seq<char>|
            lookup(local.skills, k) != lookup(base.skills, k) && lookup(remote.skills, k) != lookup(base.skills, k)
                && lookup(local.skills, k) != lookup(remote.skills, k) ==> {
                let l = lookup(local.skills, k).unwrap();
                let r = lookup(remote.skills, k).unwrap();
                #[trigger] lookup(spec_merge_documents(Some(base), local, Some(remote), device, strategy, now).0.skills, k)
                    == Some(
                    SkillV {
                        targets: spec_union_sorted(l.targets + r.targets, false),
                        tags: spec_union_sorted(l.tags + r.tags, true),
                        updated_at: now,
                        updated_by: device,
                        ..(if l.updated_at >= r.updated_at { l } else { r })
                    },
                )
            },
{
    let c = merge_ctx(Some(base), local, Some(remote), device, strategy, now);
    assert forall|k: Seq<char>| merge_keys(c).contains(k) implies (#[trigger] outcome(c, k)).1 is None by {
        assert(lookup(local.skills, k) == lookup(base.skills, k) || lookup(remote.skills, k) == lookup(base.skills, k)
            || lookup(local.skills, k) == lookup(remote.skills, k) || (lookup(local.skills, k) is Some
            && lookup(remote.skills, k) is Some && identity_equal(
            lookup(local.skills, k).unwrap(),
            lookup(remote.skills, k).unwrap(),
        )));
    }
    lemma_no_conflicts(c, merge_keys(c));
    let m = spec_merge_documents(Some(base), local, Some(remote), device, strategy, now);
    assert(m.1 =~= Seq::<ConflictV>::empty());
    assert forall|k: Seq<char>|
        lookup(local.skills, k) != lookup(base.skills, k) && lookup(remote.skills, k) != lookup(base.skills, k)
            && lookup(local.skills, k) != lookup(remote.skills, k) implies {
            let l = lookup(local.skills, k).unwrap();
            let r = lookup(remote.skills, k).unwrap();
            #[trigger] lookup(m.0.skills, k) == Some(
                SkillV {
                    targets: spec_union_sorted(l.targets + r.targets, false),
                    tags: spec_union_sorted(l.tags + r.tags, true),
                    updated_at: now,
                    updated_by: device,
                    ..(if l.updated_at >= r.updated_at { l } else { r })
                },
            )
        } by {
        law_merge_is_per_key(Some(base), local, Some(remote), device, strategy, now, k);
        assert(lookup(local.skills, k) == lookup(base.skills, k) || lookup(remote.skills, k) == lookup(base.skills, k)
            || lookup(local.skills, k) == lookup(remote.skills, k) || (lookup(local.skills, k) is Some
            && lookup(remote.skills, k) is Some && identity_equal(
            lookup(local.skills, k).unwrap(),
            lookup(remote.skills, k).unwrap(),
        )));
    }
}

/// When both devices changed a skill in ways that cannot be combined, the
/// three-way merge records a conflict on it and keeps the side the
/// strategy names.
pub proof fn law_conflicting_edits_follow_strategy(
    base: DocV,
    local: DocV,
    remote: DocV,
    device: Seq<char>,
    strategy: ConflictStrategy,
    now: i64,
    k: Seq<char>,
)
    requires
        lookup(local.skills, k) != lookup(base.skills, k),
        lookup(remote.skills, k) != lookup(base.skills, k),
        lookup(local.skills, k) != lookup(remote.skills, k),
        lookup(local.skills, k) is Some,
        lookup(remote.skills, k) is Some,
        spec_merge_compatible(lookup(local.skills, k).unwrap(), lookup(remote.skills, k).unwrap(), device, now) is None,
    ensures
        spec_merge_documents(Some(base), local, Some(remote), device, strategy, now).1.contains(
            skill_conflict(k, concurrent_change_reason()),
        ),
        lookup(spec_merge_documents(Some(base), local, Some(remote), device, strategy, now).0.skills, k) == Some(
            pick_side(strategy, lookup(local.skills, k).unwrap(), lookup(remote.skills, k).unwrap()),
        ),
{
    let c = merge_ctx(Some(base), local, Some(remote), device, strategy, now);
    law_merge_is_per_key(Some(base), local, Some(remote), device, strategy, now, k);
    lemma_merge_keys(c);
    lemma_lookup_key(c.local, k);
    assert(all_keys(c).contains(k));
    assert(merge_keys(c).to_set().contains(k));
    lemma_conflict_recorded(c, merge_keys(c), k);
    let r = spec_merge_documents(Some(base), local, Some(remote), device, strategy, now);
    let kc = key_conflicts(c, merge_keys(c));
    let m = choose|m: int| 0 <= m < kc.len() && kc[m] == skill_conflict(k, concurrent_change_reason());
    let pre = r.1.len() - kc.len();
    assert(r.1[pre + m] == kc[m]);
}

/// When one device removed a skill that the other changed, the three-way
/// merge records a conflict on it and keeps the side the strategy names,
/// falling back to the side that still has it.
pub proof fn law_removal_against_edit_follows_strategy(
    base: DocV,
    local: DocV,
    remote: DocV,
    device: Seq<char>,
    strategy: ConflictStrategy,
    now: i64,
    k: Seq<char>,
)
    requires
        lookup(local.skills, k) != lookup(base.skills, k),
        lookup(remote.skills, k) != lookup(base.skills, k),
        lookup(local.skills, k) != lookup(remote.skills, k),
        lookup(local.skills, k) is None || lookup(remote.skills, k) is None,
    ensures
        spec_merge_documents(Some(base), local, Some(remote), device, strategy, now).1.contains(
            skill_conflict(k, deletion_reason()),
        ),
        lookup(spec_merge_documents(Some(base), local, Some(remote), device, strategy, now).0.skills, k) == (
        if strategy == ConflictStrategy::Local {
            if lookup(local.skills, k) is Some { lookup(local.skills, k) } else { lookup(remote.skills, k) }
        } else {
            if lookup(remote.skills, k) is Some { lookup(remote.skills, k) } else { lookup(local.skills, k) }
        }),
{
    let c = merge_ctx(Some(base), local, Some(remote), device, strategy, now);
    law_merge_is_per_key(Some(base), local, Some(remote), device, strategy, now, k);
    lemma_merge_keys(c);
    lemma_lookup_key(c.local, k);
    lemma_lookup_key(c.remote, k);
    assert(all_keys(c).contains(k));
    assert(merge_keys(c).to_set().contains(k));
    lemma_conflict_recorded(c, merge_keys(c), k);
    let r = spec_merge_documents(Some(base), local, Some(remote), device, strategy, now);
    let kc = key_conflicts(c, merge_keys(c));
    let m = choose|m: int| 0 <= m < kc.len() && kc[m] == skill_conflict(k, deletion_reason());
    let pre = r.1.len() - kc.len();
    assert(r.1[pre + m] == kc[m]);
}

/// On first connection the merged profile is the remote one holding every
/// skill of either device; when each skill both devices hold is equal on
/// both or only extended in its targets and tags, no conflict is recorded.
pub proof fn law_first_connection_unites_devices(
    local: DocV,
    remote: DocV,
    device: Seq<char>,
    strategy: ConflictStrategy,
    now: i64,
)
    requires
        forall|k: Seq<char>|
            lookup(local.skills, k) is Some && lookup(remote.skills, k) is Some ==> semantic_equal(
                lookup(remote.skills, k).unwrap(),
                lookup(local.skills, k).unwrap(),
            ) || identity_equal(lookup(local.skills, k).unwrap(), lookup(remote.skills, k).unwrap()),
    ensures
        spec_merge_documents(None, local, Some(remote), device, strategy, now).1 == Seq::<ConflictV>::empty(),
        spec_merge_documents(None, local, Some(remote), device, strategy, now).0.profile_id == remote.profile_id,
        forall|k: Seq<char>|
            (#[trigger] lookup(spec_merge_documents(None, local, Some(remote), device, strategy, now).0.skills, k))
                is Some <==> (lookup(local.skills, k) is Some || lookup(remote.skills, k) is Some),
{
    let c = merge_ctx(None, local, Some(remote), device, strategy, now);
    assert forall|k: Seq<char>| merge_keys(c).contains(k) implies (#[trigger] outcome(c, k)).1 is None by {
        if lookup(local.skills, k) is Some && lookup(remote.skills, k) is Some {
            assert(semantic_equal(lookup(remote.skills, k).unwrap(), lookup(local.skills, k).unwrap())
                || identity_equal(lookup(local.skills, k).unwrap(), lookup(remote.skills, k).unwrap()));
        }
    }
    lemma_no_conflicts(c, merge_keys(c));
    let r = spec_merge_documents(None, local, Some(remote), device, strategy, now);
    assert(r.1 =~= Seq::<ConflictV>::empty());
    assert forall|k: Seq<char>| (#[trigger] lookup(r.0.skills, k)) is Some <==> (lookup(local.skills, k) is Some
        || lookup(remote.skills, k) is Some) by {
        law_merge_is_per_key(None, local, Some(remote), device, strategy, now, k);
        if lookup(local.skills, k) is Some && lookup(remote.skills, k) is Some {
            assert(semantic_equal(lookup(remote.skills, k).unwrap(), lookup(local.skills, k).unwrap())
                || identity_equal(lookup(local.skills, k).unwrap(), lookup(remote.skills, k).unwrap()));
        }
    }
}

/// On first connection, a skill both devices hold whose two versions are
/// neither the same nor combinable is a conflict reported under its key,
/// and the merged profile keeps the local version when the local side is
/// asked for and the remote version otherwise.
pub proof fn law_first_connection_conflict_follows_strategy(
    local: DocV,
    remote: DocV,
    device: Seq<char>,
    strategy: ConflictStrategy,
    now: i64,
    k: Seq<char>,
)
    requires
        lookup(local.skills, k) is Some,
        lookup(remote.skills, k) is Some,
        !semantic_equal(lookup(remote.skills, k).unwrap(), lookup(local.skills, k).unwrap()),
        spec_merge_compatible(lookup(local.skills, k).unwrap(), lookup(remote.skills, k).unwrap(), device, now) is None,
    ensures
        spec_merge_documents(None, local, Some(remote), device, strategy, now).1.contains(
            ConflictV { path: "skills."@ + k, reason: "首次连接时本机和远端的同源 Skill 来源、revision 或删除状态不一致"@ },
        ),
        lookup(spec_merge_documents(None, local, Some(remote), device, strategy, now).0.skills, k) == Some(
            if strategy == ConflictStrategy::Local {
                lookup(local.skills, k).unwrap()
            } else {
                lookup(remote.skills, k).unwrap()
            },
        ),
{
    let c = merge_ctx(None, local, Some(remote), device, strategy, now);
    law_merge_is_per_key(None, local, Some(remote), device, strategy, now, k);
    lemma_merge_keys(c);
    lemma_lookup_key(c.local, k);
    assert(all_keys(c).contains(k));
    assert(merge_keys(c).to_set().contains(k));
    lemma_conflict_recorded(c, merge_keys(c), k);
}

proof fn lemma_key_conflict_paths(c: MergeCtx, keys: Seq<Seq<char>>)
    ensures
        forall|i: int| 0 <= i < key_conflicts(c, keys).len()
            ==> (#[trigger] key_conflicts(c, keys)[i]).path.len() >= "skills."@.len(),
    decreases keys.len(),
{
    if keys.len() > 0 {
        lemma_key_conflict_paths(c, keys.drop_last());
        let prev = key_conflicts(c, keys.drop_last());
        let all = key_conflicts(c, keys);
        assert forall|i: int| 0 <= i < all.len() implies (#[trigger] all[i]).path.len() >= "skills."@.len() by {
            if i < prev.len() {
                assert(all[i] == prev[i]);
            } else {
                assert(all[i].path == "skills."@ + keys.last());
            }
        }
    }
}

/// When this device left the shared configuration as it was in the base,
/// the merge takes the other side's configuration whatever the strategy,
/// and reports no conflict on it: a strategy only settles conflicts.
pub proof fn law_untouched_config_takes_other_side(
    base: DocV,
    local: DocV,
    remote: Option<DocV>,
    device: Seq<char>,
    strategy: ConflictStrategy,
    now: i64,
)
    requires
        local.config == base.config,
    ensures
        ({
            let m = spec_merge_documents(Some(base), local, remote, device, strategy, now);
            &&& m.0.config == (match remote { Some(r) => r.config, None => base.config })
            &&& forall|i: int| 0 <= i < m.1.len() ==> (#[trigger] m.1[i]).path != "config"@
        }),
{
    let c = merge_ctx(Some(base), local, remote, device, strategy, now);
    lemma_key_conflict_paths(c, merge_keys(c));
    reveal_strlit("skills.");
    reveal_strlit("config");
    assert("skills."@.len() == 7);
    assert("config"@.len() == 6);
    let m = spec_merge_documents(Some(base), local, remote, device, strategy, now);
    assert(m.1 =~= key_conflicts(c, merge_keys(c)));
}

} // verus!
