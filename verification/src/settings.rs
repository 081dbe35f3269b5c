//! The key/value settings table, the per-tool skills-directory overrides
//! kept in it, and `~` expansion of configured paths.

use vstd::prelude::*;
use crate::app_config::{ToolDirOverride, ToolDirOverrideView, TOOL_DIR_OVERRIDE_PREFIX};
use crate::app_config::opt_view;
use crate::backup::pair_views;
use crate::text::{concat_str, has_prefix, owned, str_eq, str_starts_with, trim, trim_str};

verus! {

/// The value of `key` among `(key, value)` pairs: the last pair with that
/// key wins.
pub open spec fn last_value(pairs: Seq<(Seq<char>, Seq<char>)>, key: Seq<char>) -> Option<Seq<char>>
    decreases pairs.len(),
{
    if pairs.len() == 0 {
        None
    } else if pairs.last().0 == key {
        Some(pairs.last().1)
    } else {
        last_value(pairs.drop_last(), key)
    }
}

/// The pairs whose key is not `key`, in order.
pub open spec fn without_key(pairs: Seq<(Seq<char>, Seq<char>)>, key: Seq<char>) -> Seq<(Seq<char>, Seq<char>)>
    decreases pairs.len(),
{
    if pairs.len() == 0 {
        Seq::empty()
    } else {
        let rest = without_key(pairs.drop_last(), key);
        if pairs.last().0 == key { rest } else { rest.push(pairs.last()) }
    }
}

proof fn lemma_without_key(pairs: Seq<(Seq<char>, Seq<char>)>, key: Seq<char>, k: Seq<char>)
    ensures
        last_value(without_key(pairs, key), k) == (if k == key { None } else { last_value(pairs, k) }),
    decreases pairs.len(),
{
    if pairs.len() > 0 {
        lemma_without_key(pairs.drop_last(), key, k);
        let rest = without_key(pairs.drop_last(), key);
        if pairs.last().0 != key {
            assert(rest.push(pairs.last()).drop_last() =~= rest);
        }
    }
}

/// The value of the last pair with key `key`.
pub fn lookup_last(pairs: &Vec<(String, String)>, key: &str) -> (r: Option<String>)
    ensures
        opt_view(r) == last_value(pair_views(pairs@), key@),
{
    let ghost pv = pair_views(pairs@);
    let mut i: usize = pairs.len();
    assert(pv.take(i as int) =~= pv);
    while i > 0
        invariant
            i <= pairs@.len(),
            pv == pair_views(pairs@),
            last_value(pv, key@) == last_value(pv.take(i as int), key@),
        decreases i,
    {
        let ghost t = pv.take(i as int);
        assert(t.last() == pv[i - 1]);
        assert(t.drop_last() =~= pv.take(i - 1));
        if str_eq(pairs[i - 1].0.as_str(), key) {
            return Some(pairs[i - 1].1.clone());
        }
        i = i - 1;
    }
    None
}

/// A settings table: string values under string keys.
#[derive(Debug, Clone)]
pub struct Settings {
    entries: Vec<(String, String)>,
}

impl Settings {
    /// The value stored under `key`.
    pub closed spec fn value_of(&self, key: Seq<char>) -> Option<Seq<char>> {
        last_value(pair_views(self.entries@), key)
    }

    /// An empty table.
    pub fn new() -> (r: Settings)
        ensures
            forall|k: Seq<char>| r.value_of(k) is None,
    {
        Settings { entries: Vec::new() }
    }

    /// The value stored under `key`, if any.
    pub fn get(&self, key: &str) -> (r: Option<String>)
        ensures
            opt_view(r) == self.value_of(key@),
    {
        lookup_last(&self.entries, key)
    }

    fn drop_key(&mut self, key: &str)
        ensures
            pair_views(final(self).entries@) == without_key(pair_views(old(self).entries@), key@),
    {
        let ghost pv = pair_views(self.entries@);
        let mut kept: Vec<(String, String)> = Vec::new();
        let mut i: usize = 0;
        while i < self.entries.len()
            invariant
                i <= self.entries@.len(),
                pv == pair_views(self.entries@),
                pair_views(kept@) == without_key(pv.take(i as int), key@),
            decreases self.entries.len() - i,
        {
            let ghost t = pv.take(i + 1);
            assert(t.drop_last() =~= pv.take(i as int));
            assert(t.last() == pv[i as int]);
            if !str_eq(self.entries[i].0.as_str(), key) {
                let ghost k0 = pair_views(kept@);
                kept.push((self.entries[i].0.clone(), self.entries[i].1.clone()));
                assert(pair_views(kept@) =~= k0.push(pv[i as int]));
            }
            i = i + 1;
        }
        assert(pv.take(pv.len() as int) =~= pv);
        self.entries = kept;
    }

    /// Store `value` under `key`.
    pub fn set(&mut self, key: &str, value: &str)
        ensures
            final(self).value_of(key@) == Some(value@),
            forall|k: Seq<char>| k != key@ ==> final(self).value_of(k) == old(self).value_of(k),
    {
        let ghost pv = pair_views(self.entries@);
        self.drop_key(key);
        let ghost w = pair_views(self.entries@);
        self.entries.push((owned(key), owned(value)));
        assert(pair_views(self.entries@) =~= w.push((key@, value@)));
        assert forall|k: Seq<char>| k != key@ implies last_value(pair_views(self.entries@), k) == last_value(pv, k) by {
            assert(w.push((key@, value@)).drop_last() =~= w);
            lemma_without_key(pv, key@, k);
        }
    }

    /// Remove whatever is stored under `key`.
    pub fn delete(&mut self, key: &str)
        ensures
            final(self).value_of(key@) is None,
            forall|k: Seq<char>| k != key@ ==> final(self).value_of(k) == old(self).value_of(k),
    {
        let ghost pv = pair_views(self.entries@);
        self.drop_key(key);
        proof {
            lemma_without_key(pv, key@, key@);
            assert forall|k: Seq<char>| k != key@ implies last_value(pair_views(self.entries@), k) == last_value(pv, k) by {
                lemma_without_key(pv, key@, k);
            }
        }
    }
}

/// The settings key of the directory override of a tool.
pub open spec fn override_key(tool_key: Seq<char>) -> Seq<char> {
    TOOL_DIR_OVERRIDE_PREFIX@ + tool_key
}

/// The settings key of a tool's skills-directory override.
pub fn tool_dir_override_key(tool_key: &str) -> (r: String)
    ensures
        r@ == override_key(tool_key@),
{
    concat_str(TOOL_DIR_OVERRIDE_PREFIX, tool_key)
}

/// Whether a skills-directory override is set for the tool.
pub fn has_tool_dir_override(adapter_key: &str, store: &Settings) -> (r: bool)
    ensures
        r == store.value_of(override_key(adapter_key@)) is Some,
{
    let key = concat_str(TOOL_DIR_OVERRIDE_PREFIX, adapter_key);
    store.get(key.as_str()).is_some()
}

/// What the table holds under `k` after saving `overrides` over a table
/// that held `before` there: the last override for the key decides.
pub open spec fn saved_value(overrides: Seq<ToolDirOverride>, k: Seq<char>, before: Option<Seq<char>>) -> Option<Seq<char>>
    decreases overrides.len(),
{
    if overrides.len() == 0 {
        before
    } else if override_key(overrides.last().tool_key@) == k {
        if overrides.last().has_override { Some(overrides.last().current_dir@) } else { None }
    } else {
        saved_value(overrides.drop_last(), k, before)
    }
}

/// Write per-tool directory overrides back to the settings table: a set
/// override stores its directory, an unset one removes the key.
pub fn save_tool_dir_overrides(store: &mut Settings, overrides: &[ToolDirOverride])
    ensures
        forall|k: Seq<char>| #[trigger] final(store).value_of(k) == saved_value(overrides@, k, old(store).value_of(k)),
{
    let ghost start = *store;
    let mut i: usize = 0;
    while i < overrides.len()
        invariant
            i <= overrides@.len(),
            forall|k: Seq<char>| #[trigger] store.value_of(k) == saved_value(overrides@.take(i as int), k, start.value_of(k)),
        decreases overrides.len() - i,
    {
        let o = &overrides[i];
        let key = concat_str(TOOL_DIR_OVERRIDE_PREFIX, o.tool_key.as_str());
        let ghost before = *store;
        if o.has_override {
            store.set(key.as_str(), o.current_dir.as_str());
        } else {
            store.delete(key.as_str());
        }
        assert forall|k: Seq<char>| #[trigger] store.value_of(k) == saved_value(overrides@.take(i + 1), k, start.value_of(k)) by {
            let t = overrides@.take(i + 1);
            assert(t.drop_last() =~= overrides@.take(i as int));
            assert(t.last() == overrides@[i as int]);
            if k != key@ {
                assert(store.value_of(k) == before.value_of(k));
            }
        }
        i = i + 1;
    }
    assert(overrides@.take(overrides@.len() as int) =~= overrides@);
}

/// Saving overrides and asking again gives back what was saved: a tool has
/// an override exactly when the last entry saved for it had one.
pub proof fn law_saved_overrides_read_back(overrides: Seq<ToolDirOverride>, j: int, before: Option<Seq<char>>)
    requires
        0 <= j < overrides.len(),
        forall|m: int| j < m < overrides.len() ==> #[trigger] overrides[m].tool_key@ != overrides[j].tool_key@,
    ensures
        (saved_value(overrides, override_key(overrides[j].tool_key@), before) is Some) == overrides[j].has_override,
        overrides[j].has_override ==> saved_value(overrides, override_key(overrides[j].tool_key@), before) == Some(
            overrides[j].current_dir@,
        ),
    decreases overrides.len(),
{
    if j < overrides.len() - 1 {
        let last = overrides.last();
        assert(last.tool_key@ != overrides[j].tool_key@) by {
            assert(overrides[overrides.len() - 1] == last);
        }
        assert(override_key(last.tool_key@) != override_key(overrides[j].tool_key@)) by {
            if override_key(last.tool_key@) == override_key(overrides[j].tool_key@) {
                let p = TOOL_DIR_OVERRIDE_PREFIX@;
                assert(last.tool_key@ =~= override_key(last.tool_key@).subrange(p.len() as int, override_key(last.tool_key@).len() as int));
                assert(overrides[j].tool_key@ =~= override_key(overrides[j].tool_key@).subrange(p.len() as int, override_key(overrides[j].tool_key@).len() as int));
            }
        }
        let init = overrides.drop_last();
        assert forall|m: int| j < m < init.len() implies #[trigger] init[m].tool_key@ != init[j].tool_key@ by {
            assert(init[m] == overrides[m]);
        }
        law_saved_overrides_read_back(init, j, before);
        assert(init[j] == overrides[j]);
    }
}

proof fn lemma_saved_other_keys(overrides: Seq<ToolDirOverride>, k: Seq<char>, before: Option<Seq<char>>)
    requires
        forall|i: int| 0 <= i < overrides.len() ==> override_key(#[trigger] overrides[i].tool_key@) != k,
    ensures
        saved_value(overrides, k, before) == before,
    decreases overrides.len(),
{
    if overrides.len() > 0 {
        assert(overrides[overrides.len() - 1] == overrides.last());
        let init = overrides.drop_last();
        assert forall|i: int| 0 <= i < init.len() implies override_key(#[trigger] init[i].tool_key@) != k by {
            assert(init[i] == overrides[i]);
        }
        lemma_saved_other_keys(init, k, before);
    }
}

/// Saving overrides for distinct tools: each tool ends up with its own
/// override, stored when it has one and removed otherwise, and every key
/// that names none of these tools keeps its value.
pub proof fn law_saved_distinct_overrides(overrides: Seq<ToolDirOverride>, k: Seq<char>, before: Option<Seq<char>>)
    requires
        forall|i: int, j: int| 0 <= i < j < overrides.len() ==> #[trigger] overrides[i].tool_key@ != #[trigger] overrides[j].tool_key@,
    ensures
        forall|i: int| 0 <= i < overrides.len() ==> #[trigger] saved_value(overrides, override_key(overrides[i].tool_key@), before)
            == (if overrides[i].has_override { Some(overrides[i].current_dir@) } else { None }),
        (forall|i: int| 0 <= i < overrides.len() ==> override_key(#[trigger] overrides[i].tool_key@) != k)
            ==> saved_value(overrides, k, before) == before,
{
    assert forall|i: int| 0 <= i < overrides.len() implies #[trigger] saved_value(overrides, override_key(overrides[i].tool_key@), before)
        == (if overrides[i].has_override { Some(overrides[i].current_dir@) } else { None }) by {
        assert forall|m: int| i < m < overrides.len() implies #[trigger] overrides[m].tool_key@ != overrides[i].tool_key@ by {
            assert(overrides[i].tool_key@ != overrides[m].tool_key@);
        }
        law_saved_overrides_read_back(overrides, i, before);
    }
    if forall|i: int| 0 <= i < overrides.len() ==> override_key(#[trigger] overrides[i].tool_key@) != k {
        lemma_saved_other_keys(overrides, k, before);
    }
}

/// Why a path could not be expanded.
#[derive(Debug, Clone, Copy, PartialEq, Eq)]
pub enum PathError {
    /// The path is blank.
    Empty,
    /// The home directory is unknown.
    NoHome,
}

impl PathError {
    /// The user-facing message for this error.
    pub fn message(&self) -> (r: String)
        ensures
            r@ == (match *self {
                PathError::Empty => "storage path is empty"@,
                PathError::NoHome => "failed to resolve home directory"@,
            }),
    {
        match self {
            PathError::Empty => owned("storage path is empty"),
            PathError::NoHome => owned("failed to resolve home directory"),
        }
    }
}

/// What `Path::join` of std gives for the base and the relative part.
pub uninterp spec fn joined_path(base: Seq<char>, rest: Seq<char>) -> Seq<char>;

/// `std::path::Path::join`, base and result as text.
#[verifier::external_body]
fn join_path(base: &str, rest: &str) -> (r: String)
    ensures
        r@ == joined_path(base@, rest@),
{
    std::path::Path::new(base).join(rest).to_string_lossy().into_owned()
}

/// `dirs::home_dir`: the current user's home directory, if it can be found.
/// It depends on the environment; nothing is stated of it.
#[verifier::external_body]
fn home_dir() -> (r: Option<String>)
{
    dirs::home_dir().map(|p| p.to_string_lossy().into_owned())
}

pub open spec fn path_result(r: Result<String, PathError>) -> Result<Seq<char>, PathError> {
    match r {
        Ok(s) => Ok(s@),
        Err(e) => Err(e),
    }
}

/// Whether expanding `input` needs the home directory.
pub open spec fn needs_home(input: Seq<char>) -> bool {
    trim(input) == "~"@ || has_prefix(trim(input), "~/"@)
}

/// `input` trimmed, with a leading `~` or `~/` resolved against `home`.
pub open spec fn spec_expand_home(input: Seq<char>, home: Option<Seq<char>>) -> Result<Seq<char>, PathError> {
    let t = trim(input);
    if t.len() == 0 {
        Err(PathError::Empty)
    } else if needs_home(input) {
        match home {
            None => Err(PathError::NoHome),
            Some(h) => if t == "~"@ { Ok(h) } else { Ok(joined_path(h, t.subrange(2, t.len() as int))) },
        }
    } else {
        Ok(t)
    }
}

/// Expand a leading `~` against the given home directory.
pub fn expand_home_path_with(input: &str, home: Option<String>) -> (r: Result<String, PathError>)
    ensures
        path_result(r) == spec_expand_home(input@, opt_view(home)),
{
    let t = trim_str(input);
    if crate::text::chars_of(t.as_str()).len() == 0 {
        return Err(PathError::Empty);
    }
    if str_eq(t.as_str(), "~") {
        return match home {
            None => Err(PathError::NoHome),
            Some(h) => Ok(h),
        };
    }
    if str_starts_with(t.as_str(), "~/") {
        return match home {
            None => Err(PathError::NoHome),
            Some(h) => {
                proof {
                    reveal_strlit("~/");
                }
                let v = crate::text::chars_of(t.as_str());
                let rest = crate::text::string_of(&crate::text::slice_vec(&v, 2, v.len()));
                Ok(join_path(h.as_str(), rest.as_str()))
            },
        };
    }
    Ok(t)
}

/// Expand a path that may start with `~` or `~/` into an absolute path,
/// asking for the home directory only when the path needs it.
pub fn expand_home_path(input: &str) -> (r: Result<String, PathError>)
    ensures
        !needs_home(input@) ==> path_result(r) == spec_expand_home(input@, None),
        needs_home(input@) && trim(input@).len() > 0 ==> (r == Err::<String, PathError>(PathError::NoHome)
            || exists|h: Seq<char>| path_result(r) == #[trigger] spec_expand_home(input@, Some(h))),
{
    let t = trim_str(input);
    let home = if str_eq(t.as_str(), "~") || str_starts_with(t.as_str(), "~/") { home_dir() } else { None };
    let ghost hv = opt_view(home);
    let r = expand_home_path_with(input, home);
    proof {
        if needs_home(input@) && trim(input@).len() > 0 {
            match hv {
                Some(h) => assert(path_result(r) == spec_expand_home(input@, Some(h))),
                None => {},
            }
        }
    }
    r
}

/// Why a tool's skills directory could not be resolved.
#[derive(Debug, Clone)]
pub enum ToolDirError {
    /// No tool is known under the key.
    UnknownTool { key: String },
    /// The override path could not be expanded.
    Path(PathError),
}

/// The skills directory of a tool: its override from the settings table,
/// expanded against `home`, or else its default directory.
pub open spec fn spec_resolve_dir(
    store: Settings,
    key: Seq<char>,
    default_dir: Option<Seq<char>>,
    home: Option<Seq<char>>,
) -> Result<Seq<char>, Option<PathError>> {
    match store.value_of(override_key(key)) {
        Some(p) => match spec_expand_home(p, home) {
            Ok(d) => Ok(d),
            Err(e) => Err(Some(e)),
        },
        None => match default_dir {
            Some(d) => Ok(d),
            None => Err(None),
        },
    }
}

pub open spec fn dir_result(r: Result<String, ToolDirError>) -> Result<Seq<char>, Option<PathError>> {
    match r {
        Ok(s) => Ok(s@),
        Err(ToolDirError::UnknownTool { .. }) => Err(None),
        Err(ToolDirError::Path(e)) => Err(Some(e)),
    }
}

/// Resolve the effective skills directory of a tool, given its default
/// directory (`None` for an unknown tool) and the home directory.
pub fn resolve_tool_global_dir(
    adapter_key: &str,
    store: &Settings,
    default_dir: Option<String>,
    home: Option<String>,
) -> (r: Result<String, ToolDirError>)
    ensures
        dir_result(r) == spec_resolve_dir(*store, adapter_key@, opt_view(default_dir), opt_view(home)),
        match r {
            Err(ToolDirError::UnknownTool { key }) => key@ == adapter_key@,
            _ => true,
        },
{
    let key = concat_str(TOOL_DIR_OVERRIDE_PREFIX, adapter_key);
    match store.get(key.as_str()) {
        Some(p) => match expand_home_path_with(p.as_str(), home) {
            Ok(d) => Ok(d),
            Err(e) => Err(ToolDirError::Path(e)),
        },
        None => match default_dir {
            Some(d) => Ok(d),
            None => Err(ToolDirError::UnknownTool { key: owned(adapter_key) }),
        },
    }
}

/// What is known of a tool when collecting its directory override.
#[derive(Debug, Clone)]
pub struct ToolAdapterInfo {
    pub key: String,
    pub display_name: String,
    pub default_dir: String,
    pub installed: bool,
}

/// The override entry collected for a tool: none for a tool that is
/// neither installed nor overridden.
pub open spec fn spec_override_entry(store: Settings, a: ToolAdapterInfo, home: Option<Seq<char>>) -> Option<
    Result<ToolDirOverrideView, Option<PathError>>,
> {
    let overridden = store.value_of(override_key(a.key@)) is Some;
    if !a.installed && !overridden {
        None
    } else {
        match spec_resolve_dir(store, a.key@, Some(a.default_dir@), home) {
            Ok(cur) => Some(
                Ok(
                    ToolDirOverrideView {
                        tool_key: a.key@,
                        label: a.display_name@,
                        default_dir: a.default_dir@,
                        current_dir: cur,
                        has_override: overridden,
                    },
                ),
            ),
            Err(e) => Some(Err(e)),
        }
    }
}

/// The override entries of the tools in order, stopping at the first
/// directory that cannot be resolved.
pub open spec fn spec_collect(store: Settings, adapters: Seq<ToolAdapterInfo>, home: Option<Seq<char>>) -> Result<
    Seq<ToolDirOverrideView>,
    Option<PathError>,
>
    decreases adapters.len(),
{
    if adapters.len() == 0 {
        Ok(Seq::empty())
    } else {
        match spec_collect(store, adapters.drop_last(), home) {
            Err(e) => Err(e),
            Ok(prev) => match spec_override_entry(store, adapters.last(), home) {
                None => Ok(prev),
                Some(Ok(t)) => Ok(prev.push(t)),
                Some(Err(e)) => Err(e),
            },
        }
    }
}

pub open spec fn overrides_result(r: Result<Vec<ToolDirOverride>, ToolDirError>) -> Result<
    Seq<ToolDirOverrideView>,
    Option<PathError>,
> {
    match r {
        Ok(v) => Ok(v@.map_values(|o: ToolDirOverride| o@)),
        Err(ToolDirError::UnknownTool { .. }) => Err(None),
        Err(ToolDirError::Path(e)) => Err(Some(e)),
    }
}

/// Collect the skills-directory overrides of the installed or overridden
/// tools, as configuration entries.
pub fn collect_tool_dir_overrides(store: &Settings, adapters: &[ToolAdapterInfo], home: Option<String>) -> (r: Result<
    Vec<ToolDirOverride>,
    ToolDirError,
>)
    ensures
        overrides_result(r) == spec_collect(*store, adapters@, opt_view(home)),
{
    let mut result: Vec<ToolDirOverride> = Vec::new();
    let mut i: usize = 0;
    assert(adapters@.take(0) =~= Seq::<ToolAdapterInfo>::empty());
    assert(result@.map_values(|o: ToolDirOverride| o@) =~= Seq::<ToolDirOverrideView>::empty());
    while i < adapters.len()
        invariant
            i <= adapters@.len(),
            spec_collect(*store, adapters@.take(i as int), opt_view(home)) == Ok::<Seq<ToolDirOverrideView>, Option<PathError>>(
                result@.map_values(|o: ToolDirOverride| o@),
            ),
        decreases adapters.len() - i,
    {
        let a = &adapters[i];
        proof {
            let t = adapters@.take(i + 1);
            assert(t.drop_last() =~= adapters@.take(i as int));
            assert(t.last() == adapters@[i as int]);
        }
        let overridden = has_tool_dir_override(a.key.as_str(), store);
        if a.installed || overridden {
            let ghost prev = result@.map_values(|o: ToolDirOverride| o@);
            match resolve_tool_global_dir(a.key.as_str(), store, Some(a.default_dir.clone()), copy_home(&home)) {
                Ok(current_dir) => {
                    result.push(ToolDirOverride {
                        tool_key: a.key.clone(),
                        label: a.display_name.clone(),
                        default_dir: a.default_dir.clone(),
                        current_dir,
                        has_override: overridden,
                    });
                    assert(result@.map_values(|o: ToolDirOverride| o@) =~= prev.push(result@[result@.len() - 1]@));
                },
                Err(e) => {
                    proof {
                        lemma_collect_error_stays(*store, adapters@, opt_view(home), i + 1);
                    }
                    return Err(e);
                },
            }
        }
        i = i + 1;
    }
    assert(adapters@.take(adapters@.len() as int) =~= adapters@);
    Ok(result)
}

fn copy_home(h: &Option<String>) -> (r: Option<String>)
    ensures
        r == *h,
{
    crate::text::copy_opt(h)
}

proof fn lemma_collect_error_stays(store: Settings, adapters: Seq<ToolAdapterInfo>, home: Option<Seq<char>>, n: int)
    requires
        0 <= n <= adapters.len(),
        spec_collect(store, adapters.take(n), home) is Err,
    ensures
        spec_collect(store, adapters, home) == spec_collect(store, adapters.take(n), home),
    decreases adapters.len() - n,
{
    if n < adapters.len() {
        let t = adapters.take(n + 1);
        assert(t.drop_last() =~= adapters.take(n));
        lemma_collect_error_stays(store, adapters, home, n + 1);
    } else {
        assert(adapters.take(n) =~= adapters);
    }
}

} // verus!
