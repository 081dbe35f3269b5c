//! Cross-device pipelines: what a device reports about its synchronization
//! state, and how the pull and publish pipelines account for their steps.

use vstd::prelude::*;
use crate::order::{insert_sorted_unique, lemma_sorted_len, sorted_strict, views};
use crate::profile::ProfileSyncReport;
use crate::text::{
    ascii_lower, ascii_lower_vec, chars_of, decimal, decimal_vec, extend_vec, owned, str_eq, string_of,
    strip_suffix_all, strip_suffix_all_vec, trim, trim_vec,
};

verus! {

/// One step of a pipeline and how it went.
#[derive(Debug, Clone)]
pub struct DevicePipelineStage {
    pub id: String,
    pub status: String,
    pub message: String,
}

/// What a pipeline did.
#[derive(Debug, Clone)]
pub struct DevicePipelineReport {
    pub mode: String,
    pub state: String,
    pub stages: Vec<DevicePipelineStage>,
    pub profile: Option<ProfileSyncReport>,
    pub local_ahead: usize,
    pub remote_ahead: usize,
    pub dirty_repositories: usize,
    pub pushable_repositories: usize,
    pub pullable_skills: usize,
    pub local_only_skills: Vec<String>,
    pub pushed: Vec<String>,
    pub no_changes: Vec<String>,
    pub backup_remote_path: Option<String>,
    pub failures: Vec<(String, String)>,
}

pub open spec fn stage_view(s: DevicePipelineStage) -> (Seq<char>, Seq<char>, Seq<char>) {
    (s.id@, s.status@, s.message@)
}

pub open spec fn stage_views(v: Seq<DevicePipelineStage>) -> Seq<(Seq<char>, Seq<char>, Seq<char>)> {
    v.map_values(|s: DevicePipelineStage| stage_view(s))
}

fn stage(id: &str, status: &str, message: String) -> (r: DevicePipelineStage)
    ensures
        stage_view(r) == (id@, status@, message@),
{
    DevicePipelineStage { id: owned(id), status: owned(status), message }
}

fn empty_report(mode: &str, state: &str) -> (r: DevicePipelineReport)
    ensures
        r.mode@ == mode@,
        r.state@ == state@,
        r.stages@.len() == 0,
        r.profile is None,
        r.local_ahead == 0,
        r.remote_ahead == 0,
        r.dirty_repositories == 0,
        r.pushable_repositories == 0,
        r.pullable_skills == 0,
        r.local_only_skills@.len() == 0,
        r.pushed@.len() == 0,
        r.no_changes@.len() == 0,
        r.backup_remote_path is None,
        r.failures@.len() == 0,
{
    DevicePipelineReport {
        mode: owned(mode),
        state: owned(state),
        stages: Vec::new(),
        profile: None,
        local_ahead: 0,
        remote_ahead: 0,
        dirty_repositories: 0,
        pushable_repositories: 0,
        pullable_skills: 0,
        local_only_skills: Vec::new(),
        pushed: Vec::new(),
        no_changes: Vec::new(),
        backup_remote_path: None,
        failures: Vec::new(),
    }
}

/// What a pipeline needs to know of one managed skill: its record, whether
/// its origin publishes by `git push`, and whether its files changed since
/// the recorded content hash.
#[derive(Debug, Clone)]
pub struct DeviceSkill {
    pub id: String,
    pub name: String,
    pub source_type: String,
    pub source_ref: Option<String>,
    pub publishable: bool,
    pub changed: bool,
}

/// A skill may be pushed when its origin is published by `git push`.
pub fn publishable(origin: &Option<crate::records::SkillOriginRecord>) -> (r: bool)
    ensures
        r == (origin is Some && origin.unwrap().publish_strategy@ == "git_push"@),
{
    match origin {
        Some(o) => crate::text::str_eq(o.publish_strategy.as_str(), "git_push"),
        None => false,
    }
}

/// The repository a skill belongs to: its source reference (or its id)
/// trimmed, without trailing slashes and `.git`, in ASCII lowercase.
pub open spec fn spec_source_key(s: DeviceSkill) -> Seq<char> {
    let base = match s.source_ref {
        Some(r) => r@,
        None => s.id@,
    };
    ascii_lower(strip_suffix_all(strip_suffix_all(trim(base), "/"@), ".git"@))
}

/// The repository key of a skill.
pub fn source_key(skill: &DeviceSkill) -> (r: String)
    ensures
        r@ == spec_source_key(*skill),
{
    let base = match &skill.source_ref {
        Some(r) => chars_of(r.as_str()),
        None => chars_of(skill.id.as_str()),
    };
    let t = trim_vec(&base);
    let a = strip_suffix_all_vec(&t, &chars_of("/"));
    let b = strip_suffix_all_vec(&a, &chars_of(".git"));
    string_of(&ascii_lower_vec(&b))
}

pub open spec fn is_local(s: DeviceSkill) -> bool {
    s.source_type@ == "local"@
}

pub open spec fn is_git(s: DeviceSkill) -> bool {
    s.source_type@ == "git"@
}

/// The names of the local-only skills, in order.
pub open spec fn local_names(s: Seq<DeviceSkill>) -> Seq<Seq<char>>
    decreases s.len(),
{
    if s.len() == 0 {
        Seq::empty()
    } else if is_local(s.last()) {
        local_names(s.drop_last()).push(s.last().name@)
    } else {
        local_names(s.drop_last())
    }
}

/// How many skills are not local-only.
pub open spec fn pullable_count(s: Seq<DeviceSkill>) -> nat
    decreases s.len(),
{
    if s.len() == 0 {
        0
    } else {
        pullable_count(s.drop_last()) + if is_local(s.last()) { 0nat } else { 1nat }
    }
}

/// How many Git skills changed locally.
pub open spec fn ahead_count(s: Seq<DeviceSkill>) -> nat
    decreases s.len(),
{
    if s.len() == 0 {
        0
    } else {
        ahead_count(s.drop_last()) + if is_git(s.last()) && s.last().changed { 1nat } else { 0nat }
    }
}

/// The repositories of the first `n` Git skills that can be pushed (with
/// `push`) or that changed locally (without).
pub open spec fn repo_keys(s: Seq<DeviceSkill>, push: bool, n: int) -> Set<Seq<char>> {
    Set::new(
        |k: Seq<char>|
            exists|i: int|
                0 <= i < n && is_git(s[i]) && (if push { s[i].publishable } else { s[i].changed })
                    && #[trigger] spec_source_key(s[i]) == k,
    )
}

fn add_repo(keys: &mut Vec<String>, k: String, Ghost(s): Ghost<Seq<DeviceSkill>>, Ghost(push): Ghost<bool>, Ghost(i): Ghost<int>)
    requires
        0 <= i < s.len(),
        sorted_strict(views(old(keys)@)),
        views(old(keys)@).to_set() == repo_keys(s, push, i),
        is_git(s[i]) && (if push { s[i].publishable } else { s[i].changed }),
        k@ == spec_source_key(s[i]),
    ensures
        sorted_strict(views(final(keys)@)),
        views(final(keys)@).to_set() == repo_keys(s, push, i + 1),
{
    insert_sorted_unique(keys, k);
    assert(views(keys@).to_set() =~= repo_keys(s, push, i + 1)) by {
        assert forall|x: Seq<char>| repo_keys(s, push, i + 1).contains(x) implies repo_keys(s, push, i).insert(
            spec_source_key(s[i]),
        ).contains(x) by {
            let m = choose|m: int|
                0 <= m < i + 1 && is_git(s[m]) && (if push { s[m].publishable } else { s[m].changed })
                    && #[trigger] spec_source_key(s[m]) == x;
            if m < i {
                assert(repo_keys(s, push, i).contains(x));
            }
        }
        assert forall|x: Seq<char>| repo_keys(s, push, i).insert(spec_source_key(s[i])).contains(x) implies repo_keys(
            s,
            push,
            i + 1,
        ).contains(x) by {
            if x != spec_source_key(s[i]) {
                let m = choose|m: int|
                    0 <= m < i && is_git(s[m]) && (if push { s[m].publishable } else { s[m].changed })
                        && #[trigger] spec_source_key(s[m]) == x;
                assert(0 <= m < i + 1);
            }
        }
    }
}

proof fn lemma_repo_keys_step(s: Seq<DeviceSkill>, push: bool, i: int)
    requires
        0 <= i < s.len(),
        !(is_git(s[i]) && (if push { s[i].publishable } else { s[i].changed })),
    ensures
        repo_keys(s, push, i + 1) == repo_keys(s, push, i),
{
    assert(repo_keys(s, push, i + 1) =~= repo_keys(s, push, i)) by {
        assert forall|x: Seq<char>| repo_keys(s, push, i + 1).contains(x) implies repo_keys(s, push, i).contains(x) by {
            let m = choose|m: int|
                0 <= m < i + 1 && is_git(s[m]) && (if push { s[m].publishable } else { s[m].changed })
                    && #[trigger] spec_source_key(s[m]) == x;
            assert(m != i);
        }
        assert forall|x: Seq<char>| repo_keys(s, push, i).contains(x) implies repo_keys(s, push, i + 1).contains(x) by {
            let m = choose|m: int|
                0 <= m < i && is_git(s[m]) && (if push { s[m].publishable } else { s[m].changed })
                    && #[trigger] spec_source_key(s[m]) == x;
            assert(0 <= m < i + 1);
        }
    }
}

/// Inspect the synchronization state of this device: the profile check
/// made without changing anything, and what each managed skill shows.
pub fn device_status(profile: ProfileSyncReport, skills: &Vec<DeviceSkill>) -> (r: DevicePipelineReport)
    ensures
        r.mode@ == "status"@,
        r.state@ == (if profile.conflicts@.len() == 0 { "ready"@ } else { "conflict"@ }),
        r.profile == Some(profile),
        views(r.local_only_skills@) == local_names(skills@),
        r.pullable_skills == pullable_count(skills@),
        r.local_ahead == ahead_count(skills@),
        r.pushable_repositories == repo_keys(skills@, true, skills@.len() as int).len(),
        r.dirty_repositories == repo_keys(skills@, false, skills@.len() as int).len(),
        r.remote_ahead == 0,
        r.pushed@.len() == 0 && r.no_changes@.len() == 0 && r.failures@.len() == 0,
        r.backup_remote_path is None,
        stage_views(r.stages@) == seq![("inspect"@, "completed"@, "Device synchronization state inspected"@)],
{
    let ghost s = skills@;
    let state = if profile.conflicts.len() == 0 { "ready" } else { "conflict" };
    let mut report = empty_report("status", state);
    let mut locals: Vec<String> = Vec::new();
    let mut pullable: usize = 0;
    let mut ahead: usize = 0;
    let mut push_keys: Vec<String> = Vec::new();
    let mut dirty_keys: Vec<String> = Vec::new();
    let mut i: usize = 0;
    assert(views(push_keys@).to_set() =~= repo_keys(s, true, 0));
    assert(views(dirty_keys@).to_set() =~= repo_keys(s, false, 0));
    while i < skills.len()
        invariant
            i <= s.len(),
            s == skills@,
            views(locals@) == local_names(s.take(i as int)),
            pullable == pullable_count(s.take(i as int)),
            ahead == ahead_count(s.take(i as int)),
            pullable <= i && ahead <= i,
            sorted_strict(views(push_keys@)),
            sorted_strict(views(dirty_keys@)),
            views(push_keys@).to_set() == repo_keys(s, true, i as int),
            views(dirty_keys@).to_set() == repo_keys(s, false, i as int),
        decreases skills.len() - i,
    {
        let sk = &skills[i];
        proof {
            let t = s.take(i + 1);
            assert(t.drop_last() =~= s.take(i as int));
            assert(t.last() == s[i as int]);
        }
        let ghost l0 = views(locals@);
        if str_eq(sk.source_type.as_str(), "local") {
            proof {
                reveal_strlit("local");
                reveal_strlit("git");
                assert("local"@.len() != "git"@.len());
            }
            locals.push(sk.name.clone());
            assert(views(locals@) =~= l0.push(sk.name@));
            proof {
                lemma_repo_keys_step(s, true, i as int);
                lemma_repo_keys_step(s, false, i as int);
            }
        } else {
            pullable = pullable + 1;
            if str_eq(sk.source_type.as_str(), "git") {
                let key = source_key(sk);
                if sk.publishable {
                    add_repo(&mut push_keys, key.clone(), Ghost(s), Ghost(true), Ghost(i as int));
                } else {
                    proof {
                        lemma_repo_keys_step(s, true, i as int);
                    }
                }
                if sk.changed {
                    add_repo(&mut dirty_keys, key, Ghost(s), Ghost(false), Ghost(i as int));
                    ahead = ahead + 1;
                } else {
                    proof {
                        lemma_repo_keys_step(s, false, i as int);
                    }
                }
            } else {
                proof {
                    lemma_repo_keys_step(s, true, i as int);
                    lemma_repo_keys_step(s, false, i as int);
                }
            }
        }
        i = i + 1;
    }
    proof {
        assert(s.take(s.len() as int) =~= s);
        lemma_sorted_len(views(push_keys@));
        lemma_sorted_len(views(dirty_keys@));
    }
    report.local_only_skills = locals;
    report.pullable_skills = pullable;
    report.local_ahead = ahead;
    report.pushable_repositories = push_keys.len();
    report.dirty_repositories = dirty_keys.len();
    report.stages.push(stage("inspect", "completed", owned("Device synchronization state inspected")));
    assert(stage_views(report.stages@) =~= seq![("inspect"@, "completed"@, "Device synchronization state inspected"@)]);
    report.profile = Some(profile);
    report
}

/// The state a pipeline ends in: `conflict` when the profile has
/// conflicts, else `partial` when something failed, else `completed`.
pub open spec fn final_state(conflicts: bool, failures: bool) -> Seq<char> {
    if conflicts { "conflict"@ } else if failures { "partial"@ } else { "completed"@ }
}

pub open spec fn pull_message(installed: nat, updated: nat, conflicts: nat) -> Seq<char> {
    "Installed "@ + decimal(installed) + ", updated "@ + decimal(updated) + ", conflicts "@ + decimal(conflicts)
}

/// Account for a pull: the profile was downloaded, merged and applied.
pub fn device_pull(profile: ProfileSyncReport) -> (r: DevicePipelineReport)
    ensures
        r.mode@ == "pull"@,
        r.state@ == final_state(profile.conflicts@.len() > 0, profile.failures@.len() > 0),
        r.local_only_skills@ == profile.skipped_local@,
        r.failures@ == profile.failures@,
        stage_views(r.stages@) == seq![
            ("profile"@, "running"@, "Downloading and merging WebDAV Profile"@),
            (
                "profile"@,
                if profile.conflicts@.len() == 0 { "completed"@ } else { "blocked"@ },
                pull_message(profile.installed@.len(), profile.updated@.len(), profile.conflicts@.len()),
            ),
        ],
        r.profile == Some(profile),
        r.local_ahead == 0 && r.remote_ahead == 0 && r.dirty_repositories == 0,
        r.pushable_repositories == 0 && r.pullable_skills == 0,
        r.pushed@.len() == 0 && r.no_changes@.len() == 0,
        r.backup_remote_path is None,
{
    let mut report = empty_report("pull", "running");
    report.stages.push(stage("profile", "running", owned("Downloading and merging WebDAV Profile")));
    report.local_only_skills = profile.skipped_local.clone();
    report.failures = crate::text::copy_pairs(&profile.failures);
    let state = if profile.conflicts.len() > 0 {
        "conflict"
    } else if profile.failures.len() > 0 {
        "partial"
    } else {
        "completed"
    };
    report.state = owned(state);
    let mut msg = chars_of("Installed ");
    extend_vec(&mut msg, &decimal_vec(profile.installed.len() as u64));
    extend_vec(&mut msg, &chars_of(", updated "));
    extend_vec(&mut msg, &decimal_vec(profile.updated.len() as u64));
    extend_vec(&mut msg, &chars_of(", conflicts "));
    extend_vec(&mut msg, &decimal_vec(profile.conflicts.len() as u64));
    let status = if profile.conflicts.len() == 0 { "completed" } else { "blocked" };
    report.stages.push(stage("profile", status, string_of(&msg)));
    assert(stage_views(report.stages@) =~= seq![
        ("profile"@, "running"@, "Downloading and merging WebDAV Profile"@),
        (
            "profile"@,
            if profile.conflicts@.len() == 0 { "completed"@ } else { "blocked"@ },
            pull_message(profile.installed@.len(), profile.updated@.len(), profile.conflicts@.len()),
        ),
    ]);
    report.profile = Some(profile);
    report
}


fn copy_device_skill(s: &DeviceSkill) -> (r: DeviceSkill)
    ensures
        r == *s,
{
    DeviceSkill {
        id: s.id.clone(),
        name: s.name.clone(),
        source_type: s.source_type.clone(),
        source_ref: crate::text::copy_opt(&s.source_ref),
        publishable: s.publishable,
        changed: s.changed,
    }
}

fn push_stage(report: &mut DevicePipelineReport, id: &str, status: &str, message: String)
    ensures
        stage_views(final(report).stages@) == stage_views(old(report).stages@).push((id@, status@, message@)),
        final(report).mode == old(report).mode,
        final(report).state == old(report).state,
        final(report).profile == old(report).profile,
        final(report).local_ahead == old(report).local_ahead,
        final(report).remote_ahead == old(report).remote_ahead,
        final(report).dirty_repositories == old(report).dirty_repositories,
        final(report).pushable_repositories == old(report).pushable_repositories,
        final(report).pullable_skills == old(report).pullable_skills,
        final(report).local_only_skills == old(report).local_only_skills,
        final(report).pushed == old(report).pushed,
        final(report).no_changes == old(report).no_changes,
        final(report).backup_remote_path == old(report).backup_remote_path,
        final(report).failures == old(report).failures,
{
    let ghost st = stage_views(report.stages@);
    let x = stage(id, status, message);
    report.stages.push(x);
    assert(stage_views(report.stages@) =~= st.push((id@, status@, message@)));
}

pub open spec fn updated_message(n: nat) -> Seq<char> {
    "Updated "@ + decimal(n) + " source Skill(s)"@
}

/// Begin publishing once the profile was merged: a profile with conflicts
/// stops the publish (the second result is then `true`); otherwise its
/// failures are carried over.
pub fn publish_begin(initial: ProfileSyncReport) -> (r: (DevicePipelineReport, bool))
    ensures
        r.0.mode@ == "publish"@,
        r.1 == (initial.conflicts@.len() > 0),
        r.1 ==> r.0.state@ == "conflict"@ && r.0.profile == Some(initial) && r.0.failures@.len() == 0
            && stage_views(r.0.stages@) == seq![
            ("pull"@, "running"@, "Merging Profile and refreshing Git/package sources"@),
            ("pull"@, "blocked"@, "Profile conflicts must be resolved before publishing"@),
        ],
        !r.1 ==> r.0.state@ == "running"@ && r.0.profile is None && r.0.failures@ == initial.failures@
            && stage_views(r.0.stages@) == seq![
            ("pull"@, "running"@, "Merging Profile and refreshing Git/package sources"@),
            ("pull"@, "completed"@, updated_message(initial.updated@.len())),
        ],
        r.0.local_ahead == 0 && r.0.remote_ahead == 0 && r.0.dirty_repositories == 0,
        r.0.pushable_repositories == 0 && r.0.pullable_skills == 0,
        r.0.local_only_skills@.len() == 0 && r.0.pushed@.len() == 0 && r.0.no_changes@.len() == 0,
        r.0.backup_remote_path is None,
{
    let mut report = empty_report("publish", "running");
    push_stage(&mut report, "pull", "running", owned("Merging Profile and refreshing Git/package sources"));
    if initial.conflicts.len() > 0 {
        report.state = owned("conflict");
        push_stage(&mut report, "pull", "blocked", owned("Profile conflicts must be resolved before publishing"));
        assert(stage_views(report.stages@) =~= seq![
            ("pull"@, "running"@, "Merging Profile and refreshing Git/package sources"@),
            ("pull"@, "blocked"@, "Profile conflicts must be resolved before publishing"@),
        ]);
        report.profile = Some(initial);
        return (report, true);
    }
    report.failures = crate::text::copy_pairs(&initial.failures);
    let mut msg = chars_of("Updated ");
    extend_vec(&mut msg, &decimal_vec(initial.updated.len() as u64));
    extend_vec(&mut msg, &chars_of(" source Skill(s)"));
    push_stage(&mut report, "pull", "completed", string_of(&msg));
    assert(stage_views(report.stages@) =~= seq![
        ("pull"@, "running"@, "Merging Profile and refreshing Git/package sources"@),
        ("pull"@, "completed"@, updated_message(initial.updated@.len())),
    ]);
    (report, false)
}

/// A Git skill whose origin publishes by push.
pub open spec fn is_pushable(s: DeviceSkill) -> bool {
    is_git(s) && s.publishable
}

/// A pushable skill with local changes.
pub open spec fn is_dirty(s: DeviceSkill) -> bool {
    is_pushable(s) && s.changed
}

/// How many of the skills satisfy `is_pushable` (with `dirty` false) or
/// `is_dirty` (with `dirty` true).
pub open spec fn count_pushable(s: Seq<DeviceSkill>, dirty: bool) -> nat
    decreases s.len(),
{
    if s.len() == 0 {
        0
    } else {
        count_pushable(s.drop_last(), dirty) + if (if dirty { is_dirty(s.last()) } else { is_pushable(s.last()) }) {
            1nat
        } else {
            0nat
        }
    }
}

/// The names of the pushable skills without local changes.
pub open spec fn unchanged_names(s: Seq<DeviceSkill>) -> Seq<Seq<char>>
    decreases s.len(),
{
    if s.len() == 0 {
        Seq::empty()
    } else if is_pushable(s.last()) && !s.last().changed {
        unchanged_names(s.drop_last()).push(s.last().name@)
    } else {
        unchanged_names(s.drop_last())
    }
}

/// The changed pushable skills of the repository `k`, in order.
pub open spec fn group_of(s: Seq<DeviceSkill>, k: Seq<char>) -> Seq<DeviceSkill>
    decreases s.len(),
{
    if s.len() == 0 {
        Seq::empty()
    } else if is_dirty(s.last()) && spec_source_key(s.last()) == k {
        group_of(s.drop_last(), k).push(s.last())
    } else {
        group_of(s.drop_last(), k)
    }
}

/// The repositories with changed pushable skills among the first `n`.
pub open spec fn dirty_repos(s: Seq<DeviceSkill>, n: int) -> Set<Seq<char>> {
    Set::new(|k: Seq<char>| exists|i: int| 0 <= i < n && is_dirty(s[i]) && #[trigger] spec_source_key(s[i]) == k)
}

/// The changed pushable skills grouped by repository, in repository order.
pub open spec fn publish_groups(s: Seq<DeviceSkill>) -> Seq<Seq<DeviceSkill>> {
    crate::order::sorted_of(dirty_repos(s, s.len() as int)).map_values(|k: Seq<char>| group_of(s, k))
}

proof fn lemma_group_of_absent(s: Seq<DeviceSkill>, k: Seq<char>, n: int)
    requires
        0 <= n <= s.len(),
        !dirty_repos(s, n).contains(k),
    ensures
        group_of(s.take(n), k) == Seq::<DeviceSkill>::empty(),
    decreases n,
{
    if n > 0 {
        assert(s.take(n).drop_last() =~= s.take(n - 1));
        assert(s.take(n).last() == s[n - 1]);
        assert(!dirty_repos(s, n - 1).contains(k)) by {
            if dirty_repos(s, n - 1).contains(k) {
                let m = choose|m: int| 0 <= m < n - 1 && is_dirty(s[m]) && #[trigger] spec_source_key(s[m]) == k;
                assert(0 <= m < n);
            }
        }
        if is_dirty(s[n - 1]) && spec_source_key(s[n - 1]) == k {
            assert(dirty_repos(s, n).contains(k));
        }
        lemma_group_of_absent(s, k, n - 1);
    } else {
        assert(s.take(0) =~= Seq::<DeviceSkill>::empty());
    }
}

/// Sort the skills for publishing: local-only ones are noted, pushable
/// ones are counted, unchanged ones are noted, and the changed ones are
/// returned grouped by repository.
pub fn publish_plan(report: &mut DevicePipelineReport, skills: &Vec<DeviceSkill>) -> (groups: Vec<Vec<DeviceSkill>>)
    requires
        old(report).pushable_repositories == 0,
    ensures
        groups@.map_values(|g: Vec<DeviceSkill>| g@) == publish_groups(skills@),
        views(final(report).local_only_skills@) == views(old(report).local_only_skills@) + local_names(skills@),
        views(final(report).no_changes@) == views(old(report).no_changes@) + unchanged_names(skills@),
        final(report).pushable_repositories == count_pushable(skills@, false),
        final(report).dirty_repositories == groups@.len(),
        final(report).local_ahead == count_pushable(skills@, true),
        stage_views(final(report).stages@) == stage_views(old(report).stages@).push(
            ("publish"@, "running"@, "Checking owned repositories before push"@),
        ),
        final(report).mode == old(report).mode,
        final(report).state == old(report).state,
        final(report).profile == old(report).profile,
        final(report).remote_ahead == old(report).remote_ahead,
        final(report).pullable_skills == old(report).pullable_skills,
        final(report).pushed == old(report).pushed,
        final(report).backup_remote_path == old(report).backup_remote_path,
        final(report).failures == old(report).failures,
{
    let ghost s = skills@;
    let ghost lo0 = views(report.local_only_skills@);
    let ghost nc0 = views(report.no_changes@);
    let mut keys: Vec<String> = Vec::new();
    let mut groups: Vec<Vec<DeviceSkill>> = Vec::new();
    let mut pushable: usize = 0;
    let mut dirty: usize = 0;
    let mut i: usize = 0;
    assert(views(keys@).to_set() =~= dirty_repos(s, 0));
    while i < skills.len()
        invariant
            i <= s.len(),
            s == skills@,
            views(report.local_only_skills@) == lo0 + local_names(s.take(i as int)),
            views(report.no_changes@) == nc0 + unchanged_names(s.take(i as int)),
            pushable == count_pushable(s.take(i as int), false),
            dirty == count_pushable(s.take(i as int), true),
            pushable <= i && dirty <= i,
            sorted_strict(views(keys@)),
            views(keys@).to_set() == dirty_repos(s, i as int),
            groups@.len() == keys@.len(),
            forall|j: int| 0 <= j < keys@.len() ==> (#[trigger] groups@[j])@ == group_of(s.take(i as int), views(keys@)[j]),
            report.mode == old(report).mode,
            report.state == old(report).state,
            report.profile == old(report).profile,
            report.remote_ahead == old(report).remote_ahead,
            report.pullable_skills == old(report).pullable_skills,
            report.pushed == old(report).pushed,
            report.backup_remote_path == old(report).backup_remote_path,
            report.failures == old(report).failures,
            report.stages == old(report).stages,
            report.dirty_repositories == old(report).dirty_repositories,
            report.local_ahead == old(report).local_ahead,
            report.pushable_repositories == old(report).pushable_repositories,
        decreases skills.len() - i,
    {
        let sk = &skills[i];
        let ghost t = s.take(i + 1);
        proof {
            assert(t.drop_last() =~= s.take(i as int));
            assert(t.last() == s[i as int]);
            reveal_strlit("local");
            reveal_strlit("git");
            assert("local"@.len() != "git"@.len());
        }
        let ghost lo = views(report.local_only_skills@);
        let ghost nc = views(report.no_changes@);
        let ghost kv0 = views(keys@);
        let ghost gv0 = groups@;
        if str_eq(sk.source_type.as_str(), "local") {
            report.local_only_skills.push(sk.name.clone());
            assert(views(report.local_only_skills@) =~= lo.push(sk.name@));
            assert(lo0 + local_names(t) =~= (lo0 + local_names(s.take(i as int))).push(sk.name@));
        } else if str_eq(sk.source_type.as_str(), "git") && sk.publishable {
            pushable = pushable + 1;
            if sk.changed {
                dirty = dirty + 1;
                let key = source_key(sk);
                let kc = chars_of(key.as_str());
                let (pos, found) = crate::order::locate(&keys, &kc);
                if found {
                    let mut g = groups.remove(pos);
                    g.push(copy_device_skill(sk));
                    groups.insert(pos, g);
                    proof {
                        assert(kv0.to_set().contains(kc@)) by {
                            assert(kv0[pos as int] == kc@);
                        }
                        assert(dirty_repos(s, i + 1) =~= dirty_repos(s, i as int)) by {
                            assert forall|x: Seq<char>| dirty_repos(s, i + 1).contains(x) implies dirty_repos(s, i as int).contains(x) by {
                                let m = choose|m: int| 0 <= m < i + 1 && is_dirty(s[m]) && #[trigger] spec_source_key(s[m]) == x;
                                if m < i {
                                    assert(dirty_repos(s, i as int).contains(x));
                                } else {
                                    assert(kv0.to_set().contains(x));
                                }
                            }
                            assert forall|x: Seq<char>| dirty_repos(s, i as int).contains(x) implies dirty_repos(s, i + 1).contains(x) by {
                                let m = choose|m: int| 0 <= m < i && is_dirty(s[m]) && #[trigger] spec_source_key(s[m]) == x;
                                assert(0 <= m < i + 1);
                            }
                        }
                        assert forall|j: int| 0 <= j < keys@.len() implies (#[trigger] groups@[j])@ == group_of(t, views(keys@)[j]) by {
                            if j != pos {
                                assert(groups@[j] == gv0[j]);
                                assert(kv0[j] != kc@) by {
                                    if j < pos {
                                        assert(crate::order::seq_lt(kv0[j], kv0[pos as int]));
                                    } else {
                                        assert(crate::order::seq_lt(kv0[pos as int], kv0[j]));
                                    }
                                    crate::order::lemma_lt_irreflexive(kv0[j]);
                                }
                            }
                        }
                    }
                } else {
                    let mut g: Vec<DeviceSkill> = Vec::new();
                    g.push(copy_device_skill(sk));
                    proof {
                        crate::order::lemma_insert_sorted(kv0, pos as int, kc@);
                        assert(!kv0.to_set().contains(kc@)) by {
                            if kv0.to_set().contains(kc@) {
                                let m = choose|m: int| 0 <= m < kv0.len() && kv0[m] == kc@;
                                if m < pos {
                                    assert(crate::order::seq_lt(kv0[m], kc@));
                                } else {
                                    assert(crate::order::seq_lt(kc@, kv0[m]));
                                }
                                crate::order::lemma_lt_irreflexive(kc@);
                            }
                        }
                        lemma_group_of_absent(s, kc@, i as int);
                    }
                    keys.insert(pos, key);
                    groups.insert(pos, g);
                    proof {
                        assert(views(keys@) =~= kv0.insert(pos as int, kc@));
                        assert(views(keys@).to_set() =~= dirty_repos(s, i + 1)) by {
                            assert forall|x: Seq<char>| dirty_repos(s, i + 1).contains(x) <==> kv0.to_set().insert(kc@).contains(x) by {
                                if dirty_repos(s, i + 1).contains(x) {
                                    let m = choose|m: int| 0 <= m < i + 1 && is_dirty(s[m]) && #[trigger] spec_source_key(s[m]) == x;
                                    if m < i {
                                        assert(dirty_repos(s, i as int).contains(x));
                                    }
                                }
                                if kv0.to_set().contains(x) {
                                    assert(dirty_repos(s, i as int).contains(x));
                                    let m = choose|m: int| 0 <= m < i && is_dirty(s[m]) && #[trigger] spec_source_key(s[m]) == x;
                                    assert(0 <= m < i + 1);
                                }
                                if x == kc@ {
                                    assert(is_dirty(s[i as int]) && spec_source_key(s[i as int]) == x);
                                }
                            }
                        }
                        assert(group_of(t, kc@) =~= seq![s[i as int]]);
                        assert forall|j: int| 0 <= j < keys@.len() implies (#[trigger] groups@[j])@ == group_of(t, views(keys@)[j]) by {
                            if j < pos {
                                assert(groups@[j] == gv0[j]);
                                assert(views(keys@)[j] == kv0[j]);
                                assert(crate::order::seq_lt(kv0[j], kc@));
                                crate::order::lemma_lt_irreflexive(kc@);
                            } else if j > pos {
                                assert(groups@[j] == gv0[j - 1]);
                                assert(views(keys@)[j] == kv0[j - 1]);
                                assert(crate::order::seq_lt(kc@, kv0[j - 1]));
                                crate::order::lemma_lt_irreflexive(kc@);
                            }
                        }
                    }
                }
            } else {
                report.no_changes.push(sk.name.clone());
                assert(views(report.no_changes@) =~= nc.push(sk.name@));
                assert(nc0 + unchanged_names(t) =~= (nc0 + unchanged_names(s.take(i as int))).push(sk.name@));
            }
        }
        proof {
            if !is_dirty(s[i as int]) {
                assert(dirty_repos(s, i + 1) =~= dirty_repos(s, i as int)) by {
                    assert forall|x: Seq<char>| dirty_repos(s, i + 1).contains(x) implies dirty_repos(s, i as int).contains(x) by {
                        let m = choose|m: int| 0 <= m < i + 1 && is_dirty(s[m]) && #[trigger] spec_source_key(s[m]) == x;
                        assert(m != i);
                    }
                    assert forall|x: Seq<char>| dirty_repos(s, i as int).contains(x) implies dirty_repos(s, i + 1).contains(x) by {
                        let m = choose|m: int| 0 <= m < i && is_dirty(s[m]) && #[trigger] spec_source_key(s[m]) == x;
                        assert(0 <= m < i + 1);
                    }
                }
                assert forall|j: int| 0 <= j < keys@.len() implies (#[trigger] groups@[j])@ == group_of(t, views(keys@)[j]) by {
                    assert(groups@[j] == gv0[j]);
                }
            }
            if !(is_pushable(s[i as int]) && !s[i as int].changed) {
                assert(unchanged_names(t) == unchanged_names(s.take(i as int)));
            }
            if !is_local(s[i as int]) {
                assert(local_names(t) == local_names(s.take(i as int)));
            }
        }
        i = i + 1;
    }
    proof {
        assert(s.take(s.len() as int) =~= s);
        lemma_sorted_len(views(keys@));
        crate::order::lemma_is_sorted_of(views(keys@));
        assert(groups@.map_values(|g: Vec<DeviceSkill>| g@) =~= publish_groups(s));
    }
    report.pushable_repositories = pushable;
    report.dirty_repositories = groups.len();
    report.local_ahead = dirty;
    push_stage(report, "publish", "running", owned("Checking owned repositories before push"));
    groups
}


/// The names of skills, in order.
pub open spec fn skill_names(g: Seq<DeviceSkill>) -> Seq<Seq<char>> {
    g.map_values(|x: DeviceSkill| x.name@)
}

pub open spec fn failure_views(v: Seq<(String, String)>) -> Seq<(Seq<char>, Seq<char>)> {
    crate::backup::pair_views(v)
}

fn push_failure(report: &mut DevicePipelineReport, what: String, why: String)
    ensures
        failure_views(final(report).failures@) == failure_views(old(report).failures@).push((what@, why@)),
        final(report).stages == old(report).stages,
        final(report).mode == old(report).mode,
        final(report).state == old(report).state,
        final(report).profile == old(report).profile,
        final(report).local_ahead == old(report).local_ahead,
        final(report).remote_ahead == old(report).remote_ahead,
        final(report).dirty_repositories == old(report).dirty_repositories,
        final(report).pushable_repositories == old(report).pushable_repositories,
        final(report).pullable_skills == old(report).pullable_skills,
        final(report).local_only_skills == old(report).local_only_skills,
        final(report).pushed == old(report).pushed,
        final(report).no_changes == old(report).no_changes,
        final(report).backup_remote_path == old(report).backup_remote_path,
{
    let ghost f = failure_views(report.failures@);
    let ghost p = (what@, why@);
    report.failures.push((what, why));
    assert(failure_views(report.failures@) =~= f.push(p));
}

/// Decide whether the changed skills of one repository may be pushed: a
/// repository with several changed skills is never pushed automatically,
/// and pushing needs the user's confirmation. Returns the skill to push.
pub fn publish_group(report: &mut DevicePipelineReport, group: &Vec<DeviceSkill>, confirm_push: bool) -> (r: Option<DeviceSkill>)
    requires
        group@.len() > 0,
    ensures
        group@.len() > 1 ==> r is None && failure_views(final(report).failures@) == failure_views(old(report).failures@).push(
            (
                crate::text::join(skill_names(group@), ", "@),
                "同一仓库有多个 Skill 同时存在本地修改；为避免稀疏仓库互相覆盖，已停止自动推送"@,
            ),
        ),
        group@.len() == 1 && !confirm_push ==> r is None && failure_views(final(report).failures@) == failure_views(
            old(report).failures@,
        ).push((group@[0].name@, "需要 --yes 才能提交并推送本地修改"@)),
        group@.len() == 1 && confirm_push ==> r == Some(group@[0]) && final(report).failures == old(report).failures,
        final(report).stages == old(report).stages,
        final(report).pushed == old(report).pushed,
        final(report).profile == old(report).profile,
        final(report).state == old(report).state,
{
    if group.len() > 1 {
        let mut names: Vec<Vec<char>> = Vec::new();
        let mut i: usize = 0;
        while i < group.len()
            invariant
                i <= group@.len(),
                names@.map_values(|v: Vec<char>| v@) == skill_names(group@.take(i as int)),
            decreases group.len() - i,
        {
            let ghost n0 = names@.map_values(|v: Vec<char>| v@);
            names.push(chars_of(group[i].name.as_str()));
            assert(names@.map_values(|v: Vec<char>| v@) =~= n0.push(group@[i as int].name@));
            assert(skill_names(group@.take(i + 1)) =~= skill_names(group@.take(i as int)).push(group@[i as int].name@));
            i = i + 1;
        }
        assert(group@.take(group@.len() as int) =~= group@);
        let joined = crate::text::join_from(&names, 0, &chars_of(", "));
        assert(names@.subrange(0, names@.len() as int) =~= names@);
        push_failure(
            report,
            string_of(&joined),
            owned("同一仓库有多个 Skill 同时存在本地修改；为避免稀疏仓库互相覆盖，已停止自动推送"),
        );
        return None;
    }
    if !confirm_push {
        push_failure(report, group[0].name.clone(), owned("需要 --yes 才能提交并推送本地修改"));
        return None;
    }
    Some(copy_device_skill(&group[0]))
}

/// What checking the remote revision of a skill gave.
#[derive(Debug, Clone)]
pub enum UpdateCheck {
    Checked { latest: Option<String>, current: Option<String> },
    Failed { error: String },
}

/// Note the revision check of the skill `name` before a push; whether the
/// push may go ahead. A remote that moved past the local revision, or a
/// failed check, stops it.
pub fn record_update_check(report: &mut DevicePipelineReport, name: &str, check: UpdateCheck) -> (r: bool)
    ensures
        match check {
            UpdateCheck::Checked { latest, current } => {
                let ahead = latest is Some && current is Some && crate::app_config::opt_view(latest) != crate::app_config::opt_view(current);
                r == !ahead && (if ahead {
                    failure_views(final(report).failures@) == failure_views(old(report).failures@).push(
                        (name@, "远端仓库已领先；请先处理本地修改与远端版本冲突"@),
                    )
                } else {
                    final(report).failures == old(report).failures
                })
            },
            UpdateCheck::Failed { error } => !r && failure_views(final(report).failures@) == failure_views(
                old(report).failures@,
            ).push((name@, "远端版本检查失败: "@ + error@)),
        },
        final(report).stages == old(report).stages,
        final(report).pushed == old(report).pushed,
        final(report).profile == old(report).profile,
        final(report).state == old(report).state,
{
    match check {
        UpdateCheck::Checked { latest, current } => {
            let ahead = match (&latest, &current) {
                (Some(l), Some(c)) => !str_eq(l.as_str(), c.as_str()),
                _ => false,
            };
            if ahead {
                push_failure(report, owned(name), owned("远端仓库已领先；请先处理本地修改与远端版本冲突"));
                false
            } else {
                true
            }
        },
        UpdateCheck::Failed { error } => {
            push_failure(report, owned(name), crate::text::concat_str("远端版本检查失败: ", error.as_str()));
            false
        },
    }
}

/// How pushing a skill went.
#[derive(Debug, Clone)]
pub enum PushOutcome {
    /// Pushed, and the pushed revision was recorded.
    Pushed,
    /// Pushed, but recording the pushed revision failed.
    RefreshFailed { error: String },
    /// The push did not happen, for the reason given.
    NotPushed { message: String },
    /// The push failed.
    Failed { error: String },
}

/// Note how pushing the skill `name` went.
pub fn record_push(report: &mut DevicePipelineReport, name: &str, outcome: PushOutcome)
    ensures
        match outcome {
            PushOutcome::Pushed => views(final(report).pushed@) == views(old(report).pushed@).push(name@)
                && final(report).failures == old(report).failures,
            PushOutcome::RefreshFailed { error } => final(report).pushed == old(report).pushed && failure_views(
                final(report).failures@,
            ) == failure_views(old(report).failures@).push((name@, "推送后保存 revision 失败: "@ + error@)),
            PushOutcome::NotPushed { message } => final(report).pushed == old(report).pushed && failure_views(
                final(report).failures@,
            ) == failure_views(old(report).failures@).push((name@, message@)),
            PushOutcome::Failed { error } => final(report).pushed == old(report).pushed && failure_views(
                final(report).failures@,
            ) == failure_views(old(report).failures@).push((name@, "推送失败: "@ + error@)),
        },
        final(report).stages == old(report).stages,
        final(report).profile == old(report).profile,
        final(report).state == old(report).state,
{
    match outcome {
        PushOutcome::Pushed => {
            let ghost p = views(report.pushed@);
            report.pushed.push(owned(name));
            assert(views(report.pushed@) =~= p.push(name@));
        },
        PushOutcome::RefreshFailed { error } => {
            push_failure(report, owned(name), crate::text::concat_str("推送后保存 revision 失败: ", error.as_str()));
        },
        PushOutcome::NotPushed { message } => {
            push_failure(report, owned(name), message);
        },
        PushOutcome::Failed { error } => {
            push_failure(report, owned(name), crate::text::concat_str("推送失败: ", error.as_str()));
        },
    }
}

pub open spec fn pushed_message(n: nat) -> Seq<char> {
    "Pushed "@ + decimal(n) + " Skill(s)"@
}

/// Close the push step: completed when nothing failed so far.
pub fn publish_pushed_stage(report: &mut DevicePipelineReport)
    ensures
        stage_views(final(report).stages@) == stage_views(old(report).stages@).push(
            (
                "publish"@,
                if old(report).failures@.len() == 0 { "completed"@ } else { "partial"@ },
                pushed_message(old(report).pushed@.len()),
            ),
        ),
        final(report).failures == old(report).failures,
        final(report).pushed == old(report).pushed,
        final(report).profile == old(report).profile,
        final(report).state == old(report).state,
{
    let mut msg = chars_of("Pushed ");
    extend_vec(&mut msg, &decimal_vec(report.pushed.len() as u64));
    extend_vec(&mut msg, &chars_of(" Skill(s)"));
    let status = if report.failures.len() == 0 { "completed" } else { "partial" };
    push_stage(report, "publish", status, string_of(&msg));
}

/// Note the profile published after the pushes.
pub fn record_final_profile(report: &mut DevicePipelineReport, profile: ProfileSyncReport)
    ensures
        failure_views(final(report).failures@) == failure_views(old(report).failures@) + failure_views(
            profile.failures@,
        ),
        stage_views(final(report).stages@) == stage_views(old(report).stages@).push(
            (
                "profile"@,
                if profile.conflicts@.len() == 0 { "completed"@ } else { "blocked"@ },
                "Published exact desired state to WebDAV Profile"@,
            ),
        ),
        final(report).profile == Some(profile),
        final(report).pushed == old(report).pushed,
        final(report).state == old(report).state,
{
    let mut i: usize = 0;
    let ghost f0 = failure_views(report.failures@);
    while i < profile.failures.len()
        invariant
            i <= profile.failures@.len(),
            failure_views(report.failures@) == f0 + failure_views(profile.failures@.take(i as int)),
            report.stages == old(report).stages,
            report.pushed == old(report).pushed,
            report.state == old(report).state,
            report.profile == old(report).profile,
        decreases profile.failures.len() - i,
    {
        let what = profile.failures[i].0.clone();
        let why = profile.failures[i].1.clone();
        push_failure(report, what, why);
        assert(failure_views(profile.failures@.take(i + 1)) =~= failure_views(profile.failures@.take(i as int)).push(
            (profile.failures@[i as int].0@, profile.failures@[i as int].1@),
        ));
        i = i + 1;
    }
    assert(profile.failures@.take(profile.failures@.len() as int) =~= profile.failures@);
    let status = if profile.conflicts.len() == 0 { "completed" } else { "blocked" };
    push_stage(report, "profile", status, owned("Published exact desired state to WebDAV Profile"));
    report.profile = Some(profile);
}

/// Note how uploading the full backup went: the remote path it was stored
/// at, or the error.
pub fn record_backup(report: &mut DevicePipelineReport, upload: Result<String, String>)
    ensures
        match upload {
            Ok(path) => final(report).backup_remote_path == Some(path) && final(report).failures == old(
                report,
            ).failures && stage_views(final(report).stages@) == stage_views(old(report).stages@).push(
                ("backup"@, "completed"@, "Uploaded lossless database backup"@),
            ),
            Err(e) => final(report).backup_remote_path == old(report).backup_remote_path && failure_views(
                final(report).failures@,
            ) == failure_views(old(report).failures@).push(("webdav-backup"@, "完整备份上传失败: "@ + e@))
                && stage_views(final(report).stages@) == stage_views(old(report).stages@).push(
                ("backup"@, "failed"@, "Lossless backup upload failed"@),
            ),
        },
        final(report).profile == old(report).profile,
        final(report).pushed == old(report).pushed,
        final(report).state == old(report).state,
{
    match upload {
        Ok(path) => {
            report.backup_remote_path = Some(path);
            push_stage(report, "backup", "completed", owned("Uploaded lossless database backup"));
        },
        Err(e) => {
            push_failure(report, owned("webdav-backup"), crate::text::concat_str("完整备份上传失败: ", e.as_str()));
            push_stage(report, "backup", "failed", owned("Lossless backup upload failed"));
        },
    }
}

/// Settle the state of a finished publish.
pub fn publish_finish(report: &mut DevicePipelineReport)
    ensures
        final(report).state@ == final_state(
            match old(report).profile {
                Some(p) => p.conflicts@.len() > 0,
                None => false,
            },
            old(report).failures@.len() > 0,
        ),
        final(report).stages == old(report).stages,
        final(report).failures == old(report).failures,
        final(report).profile == old(report).profile,
        final(report).pushed == old(report).pushed,
{
    let conflicts = match &report.profile {
        Some(p) => p.conflicts.len() > 0,
        None => false,
    };
    let state = if conflicts {
        "conflict"
    } else if report.failures.len() > 0 {
        "partial"
    } else {
        "completed"
    };
    report.state = owned(state);
}

} // verus!
