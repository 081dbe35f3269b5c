//! The decisions around placing a skill in a tool's skills directory and
//! taking it out again: whether an existing placement is reused, whether a
//! target in the way is replaced or refused, how a failed write is
//! reported, and which stored placements an unsync removes.

use vstd::prelude::*;
use crate::text::{chars_of, concat_str, contains, contains_vec, owned, str_eq};

verus! {

/// The message a failed write into a tool's directory is reported with:
/// an existing target and a permission failure get the codes the
/// interface recognises; anything else is passed on as it is.
pub open spec fn spec_sync_failure(msg: Seq<char>, target: Seq<char>, tool_label: Seq<char>, tool_root: Seq<char>) -> Seq<char> {
    if contains(msg, "target already exists"@) {
        "TARGET_EXISTS|"@ + target
    } else if contains(msg, "os error 5"@) || contains(msg, "Access is denied"@) || contains(msg, "Permission denied"@) {
        "TOOL_NOT_WRITABLE|"@ + tool_label + "|"@ + tool_root
    } else {
        msg
    }
}

/// The message a failed write into a tool's directory is reported with
/// (see [`spec_sync_failure`]).
pub fn classify_sync_failure(msg: &str, target: &str, tool_label: &str, tool_root: &str) -> (r: String)
    ensures
        r@ == spec_sync_failure(msg@, target@, tool_label@, tool_root@),
{
    let m = chars_of(msg);
    if contains_vec(&m, &chars_of("target already exists")) {
        concat_str("TARGET_EXISTS|", target)
    } else if contains_vec(&m, &chars_of("os error 5")) || contains_vec(&m, &chars_of("Access is denied"))
        || contains_vec(&m, &chars_of("Permission denied")) {
        let head = concat_str("TOOL_NOT_WRITABLE|", tool_label);
        let mid = concat_str(head.as_str(), "|");
        let r = concat_str(mid.as_str(), tool_root);
        assert(r@ == "TOOL_NOT_WRITABLE|"@ + tool_label@ + "|"@ + tool_root@);
        r
    } else {
        owned(msg)
    }
}

/// What placing a skill in a tool's directory comes to.
#[derive(Debug, Clone, PartialEq, Eq)]
pub enum SyncStep {
    /// The stored placement is this very target and it is still there.
    Reuse,
    /// Write the skill to the target, replacing what is there when
    /// `replace` holds.
    Write { replace: bool },
    /// Something else is at the target and it may not be replaced; the
    /// message says so.
    Refuse(String),
}

/// The contents of a [`SyncStep`].
pub enum SyncStepView {
    Reuse,
    Write(bool),
    Refuse(Seq<char>),
}

impl View for SyncStep {
    type V = SyncStepView;

    open spec fn view(&self) -> SyncStepView {
        match self {
            SyncStep::Reuse => SyncStepView::Reuse,
            SyncStep::Write { replace } => SyncStepView::Write(*replace),
            SyncStep::Refuse(m) => SyncStepView::Refuse(m@),
        }
    }
}

/// The caller asked to replace an existing target, outright or because it
/// holds the same content as the skill.
pub open spec fn spec_may_replace(overwrite: Option<bool>, overwrite_if_same: Option<bool>, same_content: bool) -> bool {
    overwrite == Some(true) || (overwrite_if_same == Some(true) && same_content)
}

/// The step that places a skill at `target`. `existing` is the target path
/// of the placement stored for the same skill, tool, scope and project;
/// `target_exists` whether anything is at `target`; `same_content` whether
/// that holds the same content as the skill.
pub open spec fn spec_plan_tool_sync(
    existing: Option<Seq<char>>,
    target: Seq<char>,
    target_exists: bool,
    overwrite: Option<bool>,
    overwrite_if_same: Option<bool>,
    same_content: bool,
) -> SyncStepView {
    if existing == Some(target) && target_exists {
        SyncStepView::Reuse
    } else if target_exists && !spec_may_replace(overwrite, overwrite_if_same, same_content) {
        SyncStepView::Refuse("TARGET_EXISTS|"@ + target)
    } else {
        SyncStepView::Write(target_exists)
    }
}

/// The step that places a skill at `target` (see [`spec_plan_tool_sync`]).
pub fn plan_tool_sync(
    existing: Option<&str>,
    target: &str,
    target_exists: bool,
    overwrite: Option<bool>,
    overwrite_if_same: Option<bool>,
    same_content: bool,
) -> (r: SyncStep)
    ensures
        r@ == (spec_plan_tool_sync(
            match existing { Some(e) => Some(e@), None => None },
            target@,
            target_exists,
            overwrite,
            overwrite_if_same,
            same_content,
        )),
{
    let same_path = match existing {
        Some(e) => str_eq(e, target),
        None => false,
    };
    if same_path && target_exists {
        return SyncStep::Reuse;
    }
    let may_replace = match overwrite {
        Some(true) => true,
        _ => match overwrite_if_same {
            Some(true) => same_content,
            _ => false,
        },
    };
    if target_exists && !may_replace {
        return SyncStep::Refuse(concat_str("TARGET_EXISTS|", target));
    }
    SyncStep::Write { replace: target_exists }
}

/// The first stored target path among the placements found.
pub open spec fn first_found(found: Seq<Option<Seq<char>>>) -> Option<Seq<char>>
    decreases found.len(),
{
    if found.len() == 0 {
        None
    } else if found[0] is Some {
        found[0]
    } else {
        first_found(found.drop_first())
    }
}

/// The positions, in order, of the tools with a placement found.
pub open spec fn found_positions(found: Seq<Option<Seq<char>>>) -> Seq<usize>
    decreases found.len(),
{
    if found.len() == 0 {
        Seq::empty()
    } else {
        found_positions(found.drop_last()) + if found.last() is Some {
            seq![(found.len() - 1) as usize]
        } else {
            Seq::empty()
        }
    }
}

pub open spec fn found_views(found: Seq<Option<String>>) -> Seq<Option<Seq<char>>> {
    found.map_values(|o: Option<String>| match o {
        Some(s) => Some(s@),
        None => None,
    })
}

/// What an unsync removes, for the tools that share one skills directory:
/// `found[i]` is the stored target path of the `i`-th tool's placement, if
/// it has one.
pub struct UnsyncPlan {
    /// The path removed from disk: that of the first placement found, once,
    /// since the tools share it.
    pub remove_path: Option<String>,
    /// The tools whose stored placement is deleted.
    pub delete: Vec<usize>,
}

/// What an unsync removes (see [`UnsyncPlan`]).
pub fn plan_unsync(found: &Vec<Option<String>>) -> (r: UnsyncPlan)
    ensures
        match r.remove_path {
            Some(p) => first_found(found_views(found@)) == Some(p@),
            None => first_found(found_views(found@)) is None,
        },
        r.delete@ == found_positions(found_views(found@)),
{
    let mut remove_path: Option<String> = None;
    let mut delete: Vec<usize> = Vec::new();
    let mut i: usize = found.len();
    // The first path is found by walking back from the end; the positions
    // are then collected from the front.
    while i > 0
        invariant
            i <= found@.len(),
            match remove_path {
                Some(p) => first_found(found_views(found@).subrange(i as int, found@.len() as int)) == Some(p@),
                None => first_found(found_views(found@).subrange(i as int, found@.len() as int)) is None,
            },
        decreases i,
    {
        let ghost rest = found_views(found@).subrange(i - 1, found@.len() as int);
        assert(rest.drop_first() =~= found_views(found@).subrange(i as int, found@.len() as int));
        match &found[i - 1] {
            Some(p) => {
                remove_path = Some(p.clone());
            },
            None => {},
        }
        i = i - 1;
    }
    assert(found_views(found@).subrange(0, found@.len() as int) =~= found_views(found@));
    let mut j: usize = 0;
    while j < found.len()
        invariant
            j <= found@.len(),
            delete@ == found_positions(found_views(found@).subrange(0, j as int)),
        decreases found.len() - j,
    {
        let ghost pre = found_views(found@).subrange(0, j + 1);
        assert(pre.drop_last() =~= found_views(found@).subrange(0, j as int));
        if found[j].is_some() {
            delete.push(j);
        }
        j = j + 1;
    }
    UnsyncPlan { remove_path, delete }
}

/// The message reporting the tool directories that could not be cleaned
/// up after a skill was deleted, one failure per line; none when all were.
pub open spec fn spec_cleanup_report(failures: Seq<Seq<char>>) -> Option<Seq<char>> {
    if failures.len() == 0 {
        None
    } else {
        Some("已删除托管记录，但清理部分工具目录失败：\n- "@ + crate::text::join(failures, "\n- "@))
    }
}

/// The message reporting the tool directories that could not be cleaned
/// up after a skill was deleted (see [`spec_cleanup_report`]).
pub fn cleanup_report(failures: &Vec<String>) -> (r: Option<String>)
    ensures
        crate::app_config::opt_view(r) == spec_cleanup_report(crate::order::views(failures@)),
{
    if failures.len() == 0 {
        return None;
    }
    let mut parts: Vec<Vec<char>> = Vec::new();
    let mut i: usize = 0;
    while i < failures.len()
        invariant
            i <= failures@.len(),
            parts@.map_values(|v: Vec<char>| v@) == crate::order::views(failures@.take(i as int)),
        decreases failures.len() - i,
    {
        let ghost p0 = parts@;
        let c = chars_of(failures[i].as_str());
        assert(c@ == failures@[i as int]@);
        parts.push(c);
        assert(parts@ == p0.push(c));
        assert(crate::order::views(failures@.take(i + 1)) =~= crate::order::views(failures@.take(i as int)).push(failures@[i as int]@));
        assert(parts@.map_values(|v: Vec<char>| v@) =~= crate::order::views(failures@.take(i + 1)));
        i = i + 1;
    }
    assert(failures@.take(failures@.len() as int) =~= failures@);
    let joined = crate::text::join_from(&parts, 0, &chars_of("\n- "));
    assert(parts@.subrange(0, parts@.len() as int) =~= parts@);
    let mut out = chars_of("已删除托管记录，但清理部分工具目录失败：\n- ");
    crate::text::extend_vec(&mut out, &joined);
    Some(crate::text::string_of(&out))
}

} // verus!
