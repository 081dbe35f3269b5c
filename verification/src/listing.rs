//! How the command line lists managed skills: which skills a filter keeps,
//! the origin shown for each, and who is named as its author.

use vstd::prelude::*;
use crate::app_config::{opt_view, OriginRules};
use crate::cli_rules::{parse_github_repository, spec_parse_github_repository};
use crate::records::{SkillOriginRecord, SkillRecord};
use crate::text::{
    chars_of, eq_ignore_ascii_case, eq_ignore_ascii_case_vec, extend_vec, owned, split_char, split_char_vec,
    str_eq, string_of, strip_prefix_all, strip_prefix_all_vec,
};

verus! {

/// The origin shown for a listed skill.
#[derive(Debug, Clone)]
pub struct CliSkillOrigin {
    pub kind: String,
    pub role: String,
    pub provider: Option<String>,
    pub remote_url: Option<String>,
    pub owner: Option<String>,
    pub repo: Option<String>,
    pub branch: Option<String>,
    pub subpath: Option<String>,
    pub update_strategy: String,
    pub publish_strategy: String,
    pub manual_override: bool,
    pub reason: Option<String>,
}

/// The author shown for a listed skill.
#[derive(Debug, Clone)]
pub struct CliSkillAuthor {
    pub kind: String,
    pub name: Option<String>,
    pub provider: Option<String>,
    pub repository: Option<String>,
    pub read_only: bool,
}

/// The contents of a [`CliSkillOrigin`].
pub struct CliOriginV {
    pub kind: Seq<char>,
    pub role: Seq<char>,
    pub provider: Option<Seq<char>>,
    pub remote_url: Option<Seq<char>>,
    pub owner: Option<Seq<char>>,
    pub repo: Option<Seq<char>>,
    pub branch: Option<Seq<char>>,
    pub subpath: Option<Seq<char>>,
    pub update_strategy: Seq<char>,
    pub publish_strategy: Seq<char>,
    pub manual_override: bool,
    pub reason: Option<Seq<char>>,
}

impl View for CliSkillOrigin {
    type V = CliOriginV;

    open spec fn view(&self) -> CliOriginV {
        CliOriginV {
            kind: self.kind@,
            role: self.role@,
            provider: opt_view(self.provider),
            remote_url: opt_view(self.remote_url),
            owner: opt_view(self.owner),
            repo: opt_view(self.repo),
            branch: opt_view(self.branch),
            subpath: opt_view(self.subpath),
            update_strategy: self.update_strategy@,
            publish_strategy: self.publish_strategy@,
            manual_override: self.manual_override,
            reason: opt_view(self.reason),
        }
    }
}

/// A skill that can be synchronized to other devices: one from Git or a
/// package.
pub open spec fn is_syncable(source_type: Seq<char>) -> bool {
    source_type == "git"@ || source_type == "package"@
}

/// Whether the `--filter` of the listing keeps a skill: `syncable` keeps
/// the syncable ones, `local` the others, anything else all.
pub open spec fn spec_filter_keeps(filter: Seq<char>, source_type: Seq<char>) -> bool {
    if filter == "syncable"@ {
        is_syncable(source_type)
    } else if filter == "local"@ {
        !is_syncable(source_type)
    } else {
        true
    }
}

/// Whether the listing filter keeps a skill of the source type.
pub fn filter_keeps(filter: &str, source_type: &str) -> (r: bool)
    ensures
        r == spec_filter_keeps(filter@, source_type@),
{
    let syncable = str_eq(source_type, "git") || str_eq(source_type, "package");
    if str_eq(filter, "syncable") {
        syncable
    } else if str_eq(filter, "local") {
        !syncable
    } else {
        true
    }
}

/// The origin shown for a skill with a stored origin record.
pub fn stored_cli_origin(o: &SkillOriginRecord) -> (r: CliSkillOrigin)
    ensures
        r@ == (CliOriginV {
            kind: o.origin_kind@,
            role: o.origin_role@,
            provider: opt_view(o.provider),
            remote_url: opt_view(o.remote_url),
            owner: opt_view(o.owner),
            repo: opt_view(o.repo),
            branch: opt_view(o.branch),
            subpath: opt_view(o.subpath),
            update_strategy: o.update_strategy@,
            publish_strategy: o.publish_strategy@,
            manual_override: o.manual_override,
            reason: opt_view(o.reason),
        }),
{
    CliSkillOrigin {
        kind: o.origin_kind.clone(),
        role: o.origin_role.clone(),
        provider: crate::text::copy_opt(&o.provider),
        remote_url: crate::text::copy_opt(&o.remote_url),
        owner: crate::text::copy_opt(&o.owner),
        repo: crate::text::copy_opt(&o.repo),
        branch: crate::text::copy_opt(&o.branch),
        subpath: crate::text::copy_opt(&o.subpath),
        update_strategy: o.update_strategy.clone(),
        publish_strategy: o.publish_strategy.clone(),
        manual_override: o.manual_override,
        reason: crate::text::copy_opt(&o.reason),
    }
}

/// The owner is one of the user's own (ignoring ASCII case).
pub open spec fn owner_is_current(owner: Option<Seq<char>>, rules: OriginRules) -> bool {
    owner is Some && exists|i: int|
        0 <= i < rules.my_git_owners@.len() && eq_ignore_ascii_case(#[trigger] rules.my_git_owners@[i]@, owner.unwrap())
}

/// The origin shown for a skill without an origin record, derived from
/// its source: local skills and skills of the user's own GitHub owners
/// are the user's; the user's own Git skills publish by push.
pub open spec fn spec_fallback_origin(rec: SkillRecord, rules: OriginRules) -> CliOriginV {
    let st = rec.source_type@;
    let (owner, repo) = match rec.source_ref {
        Some(s) => spec_parse_github_repository(s@),
        None => (None, None),
    };
    let current = owner_is_current(owner, rules);
    CliOriginV {
        kind: st,
        role: if st == "local"@ || current { "mine"@ } else { "repository"@ },
        provider: Some(if st == "package"@ { "npm"@ } else { st }),
        remote_url: opt_view(rec.source_ref),
        owner,
        repo,
        branch: None,
        subpath: opt_view(rec.source_subpath),
        update_strategy: if st == "git"@ {
            "git_pull"@
        } else if st == "package"@ {
            "package_refresh"@
        } else {
            "local_copy"@
        },
        publish_strategy: if current && st == "git"@ { "git_push"@ } else { "none"@ },
        manual_override: false,
        reason: Some("derived from Skill source metadata for CLI output"@),
    }
}

fn owner_listed(owner: &Option<String>, rules: &OriginRules) -> (r: bool)
    ensures
        r == owner_is_current(opt_view(*owner), *rules),
{
    match owner {
        None => false,
        Some(o) => {
            let oc = chars_of(o.as_str());
            let mut i: usize = 0;
            while i < rules.my_git_owners.len()
                invariant
                    i <= rules.my_git_owners@.len(),
                    oc@ == o@,
                    opt_view(*owner) == Some(o@),
                    forall|k: int| 0 <= k < i ==> !eq_ignore_ascii_case(#[trigger] rules.my_git_owners@[k]@, o@),
                decreases rules.my_git_owners.len() - i,
            {
                if eq_ignore_ascii_case_vec(&chars_of(rules.my_git_owners[i].as_str()), &oc) {
                    assert(eq_ignore_ascii_case(rules.my_git_owners@[i as int]@, o@));
                    return true;
                }
                i = i + 1;
            }
            false
        },
    }
}

/// The origin shown for a skill without an origin record.
pub fn fallback_cli_origin(rec: &SkillRecord, rules: &OriginRules) -> (r: CliSkillOrigin)
    ensures
        r@ == spec_fallback_origin(*rec, *rules),
{
    let (owner, repo) = match &rec.source_ref {
        Some(s) => parse_github_repository(s.as_str()),
        None => (None, None),
    };
    let current = owner_listed(&owner, rules);
    let st = rec.source_type.as_str();
    let is_local = str_eq(st, "local");
    let is_git = str_eq(st, "git");
    let is_package = str_eq(st, "package");
    CliSkillOrigin {
        kind: rec.source_type.clone(),
        role: owned(if is_local || current { "mine" } else { "repository" }),
        provider: Some(if is_package { owned("npm") } else { rec.source_type.clone() }),
        remote_url: crate::text::copy_opt(&rec.source_ref),
        owner,
        repo,
        branch: None,
        subpath: crate::text::copy_opt(&rec.source_subpath),
        update_strategy: owned(if is_git { "git_pull" } else if is_package { "package_refresh" } else { "local_copy" }),
        publish_strategy: owned(if current && is_git { "git_push" } else { "none" }),
        manual_override: false,
        reason: Some(owned("derived from Skill source metadata for CLI output")),
    }
}

/// The scope of a package reference such as `npm:@scope/name`: the part
/// after `@` up to the first slash, when not empty.
pub open spec fn spec_package_author(source_type: Seq<char>, source_ref: Option<Seq<char>>) -> Option<Seq<char>> {
    if source_type != "package"@ {
        None
    } else {
        match source_ref {
            None => None,
            Some(s) => {
                let t = strip_prefix_all(s, "npm:"@);
                if t.len() > 0 && t[0] == '@' {
                    let first = split_char(t.skip(1), '/')[0];
                    if first.len() > 0 { Some(first) } else { None }
                } else {
                    None
                }
            },
        }
    }
}

/// The author a package reference names.
pub fn package_author(source_type: &str, source_ref: &Option<String>) -> (r: Option<String>)
    ensures
        opt_view(r) == spec_package_author(source_type@, opt_view(*source_ref)),
{
    if !str_eq(source_type, "package") {
        return None;
    }
    match source_ref {
        None => None,
        Some(s) => {
            let t = strip_prefix_all_vec(&chars_of(s.as_str()), &chars_of("npm:"));
            if t.len() > 0 && t[0] == '@' {
                let rest = crate::text::slice_vec(&t, 1, t.len());
                assert(rest@ =~= t@.skip(1));
                let parts = split_char_vec(&rest, '/');
                proof {
                    crate::text::lemma_split_char_nonempty(rest@, '/');
                }
                assert(parts@[0]@ == split_char(rest@, '/')[0]);
                if parts[0].len() > 0 {
                    Some(string_of(&parts[0]))
                } else {
                    None
                }
            } else {
                None
            }
        },
    }
}

/// The author shown for a listed skill: the current user for the user's
/// own skills, else a third party; named by the origin's owner or the
/// package scope.
pub open spec fn spec_author(origin: Option<CliOriginV>, package: Option<Seq<char>>) -> (
    Seq<char>,
    Option<Seq<char>>,
    Option<Seq<char>>,
    Option<Seq<char>>,
    bool,
) {
    (
        if origin is Some && origin.unwrap().role == "mine"@ { "current"@ } else { "thirdParty"@ },
        match origin {
            Some(o) => if o.owner is Some { o.owner } else { package },
            None => package,
        },
        match origin {
            Some(o) => o.provider,
            None => None,
        },
        match origin {
            Some(o) => match (o.owner, o.repo) {
                (Some(ow), Some(rp)) => Some(ow + "/"@ + rp),
                _ => None,
            },
            None => None,
        },
        true,
    )
}

pub open spec fn author_view(a: CliSkillAuthor) -> (Seq<char>, Option<Seq<char>>, Option<Seq<char>>, Option<Seq<char>>, bool) {
    (a.kind@, opt_view(a.name), opt_view(a.provider), opt_view(a.repository), a.read_only)
}

pub open spec fn cli_origin_opt(o: Option<CliSkillOrigin>) -> Option<CliOriginV> {
    match o {
        Some(x) => Some(x@),
        None => None,
    }
}

/// The author shown for a listed skill.
pub fn skill_author(origin: &Option<CliSkillOrigin>, package: Option<String>) -> (r: CliSkillAuthor)
    ensures
        author_view(r) == spec_author(cli_origin_opt(*origin), opt_view(package)),
{
    match origin {
        Some(o) => {
            let mine = str_eq(o.role.as_str(), "mine");
            let name = match &o.owner {
                Some(ow) => Some(ow.clone()),
                None => package,
            };
            let repository = match (&o.owner, &o.repo) {
                (Some(ow), Some(rp)) => {
                    let mut v = chars_of(ow.as_str());
                    extend_vec(&mut v, &chars_of("/"));
                    extend_vec(&mut v, &chars_of(rp.as_str()));
                    Some(string_of(&v))
                },
                _ => None,
            };
            CliSkillAuthor {
                kind: owned(if mine { "current" } else { "thirdParty" }),
                name,
                provider: crate::text::copy_opt(&o.provider),
                repository,
                read_only: true,
            }
        },
        None => CliSkillAuthor { kind: owned("thirdParty"), name: package, provider: None, repository: None, read_only: true },
    }
}


/// The line listing a skill: its name, source type, whether it can be
/// synchronized, its central path and how many targets it has.
pub open spec fn spec_list_line(name: Seq<char>, source_type: Seq<char>, central_path: Seq<char>, targets: nat) -> Seq<char> {
    name + "  ["@ + source_type + "]  ("@ + (if is_syncable(source_type) { "syncable"@ } else { "local"@ }) + ")  "@
        + central_path + "  -> "@ + crate::text::decimal(targets) + " target(s)"@
}

/// The line listing a skill.
pub fn list_line(name: &str, source_type: &str, central_path: &str, targets: usize) -> (r: String)
    ensures
        r@ == spec_list_line(name@, source_type@, central_path@, targets as nat),
{
    let syncable = str_eq(source_type, "git") || str_eq(source_type, "package");
    let mut v = chars_of(name);
    extend_vec(&mut v, &chars_of("  ["));
    extend_vec(&mut v, &chars_of(source_type));
    extend_vec(&mut v, &chars_of("]  ("));
    extend_vec(&mut v, &chars_of(if syncable { "syncable" } else { "local" }));
    extend_vec(&mut v, &chars_of(")  "));
    extend_vec(&mut v, &chars_of(central_path));
    extend_vec(&mut v, &chars_of("  -> "));
    extend_vec(&mut v, &crate::text::decimal_vec(targets as u64));
    extend_vec(&mut v, &chars_of(" target(s)"));
    string_of(&v)
}

} // verus!
