//! User-facing error messages: special-flow prefixes pass through, temporary
//! clone directories are redacted and GitHub clone failures get a hint.

use vstd::prelude::*;
use crate::text::{
    chars_of, contains, contains_vec, extend_vec, find_pat, find_vec, has_prefix, join,
    join_from, lines, lines_vec, lowercase, lowercase_vec, owned, slice_vec, starts_with_vec,
    string_of,
};

verus! {

#[verifier::external_type_specification]
#[verifier::external_body]
pub struct ExAnyhowError(anyhow::Error);

/// What `ToString::to_string` renders of an `anyhow::Error`: its outermost
/// message.
pub uninterp spec fn error_message(e: anyhow::Error) -> Seq<char>;

/// What `{:#}` renders of an `anyhow::Error`: every context and cause
/// joined by `": "`.
pub uninterp spec fn error_chain_message(e: anyhow::Error) -> Seq<char>;

/// What `to_string` renders of an `anyhow::Error`'s root cause.
pub uninterp spec fn error_root_message(e: anyhow::Error) -> Seq<char>;

/// Calls `ToString::to_string` on an `anyhow::Error`: the outermost
/// message, named and not spelled out.
#[verifier::external_body]
fn error_text(e: &anyhow::Error) -> (r: String)
    ensures
        r@ == error_message(*e),
{
    e.to_string()
}

/// Formats an `anyhow::Error` with `{:#}`, named and not spelled out.
#[verifier::external_body]
fn error_chain_text(e: &anyhow::Error) -> (r: String)
    ensures
        r@ == error_chain_message(*e),
{
    format!("{:#}", e)
}

/// Calls `anyhow::Error::root_cause` and renders it with `to_string`,
/// named and not spelled out.
#[verifier::external_body]
fn error_root_text(e: &anyhow::Error) -> (r: String)
    ensures
        r@ == error_root_message(*e),
{
    e.root_cause().to_string()
}

/// A message the frontend handles specially and that passes unchanged.
pub open spec fn is_flow_message(first: Seq<char>) -> bool {
    has_prefix(first, "MULTI_SKILLS|"@) || has_prefix(first, "TARGET_EXISTS|"@)
        || has_prefix(first, "TOOL_NOT_INSTALLED|"@)
}

/// The full error text with the temporary destination of a failed clone
/// (`clone <url> into <dir>` on the first line) replaced by a note.
pub open spec fn redact_clone(full: Seq<char>) -> Seq<char> {
    let ls = lines(full);
    if ls.len() > 0 && has_prefix(ls[0], "clone "@) && find_pat(ls[0], " into "@, 0) != -1 {
        let head = ls[0].take(find_pat(ls[0], " into "@, 0)) + " (已省略临时目录)"@;
        let rest = join(ls.skip(1), "\n"@);
        if rest.len() == 0 {
            head
        } else {
            head + "\n"@ + rest
        }
    } else {
        full
    }
}

/// The hint for a GitHub fetch failure, chosen by the lowercased message.
pub open spec fn github_hint(lower: Seq<char>) -> Seq<char> {
    if contains(lower, "authentication"@) || contains(lower, "permission denied"@)
        || contains(lower, "credentials"@) {
        "无法访问该仓库：可能是私有仓库/权限不足/需要鉴权。"@
    } else if contains(lower, "not found"@) {
        "仓库不存在或无权限访问（GitHub 返回 not found）。"@
    } else if contains(lower, "failed to resolve"@) || contains(lower, "could not resolve"@)
        || contains(lower, "dns"@) {
        "无法解析 GitHub 域名（DNS）。请检查网络/代理。"@
    } else if contains(lower, "timed out"@) || contains(lower, "timeout"@) {
        "连接 GitHub 超时。请检查网络/代理。"@
    } else if contains(lower, "connection refused"@) || contains(lower, "connection reset"@) {
        "连接 GitHub 失败（连接被拒绝/重置）。请检查网络/代理。"@
    } else {
        "无法从 GitHub 拉取仓库。请检查网络/代理，或稍后重试。"@
    }
}

pub open spec fn tls_message_head() -> Seq<char> {
    "无法从 GitHub 拉取仓库：TLS/证书校验失败（macOS SecureTransport）。\n\n建议：\n- 检查网络/代理是否拦截 HTTPS\n- 如在公司网络，可能需要安装公司根证书或使用可信代理\n- 也可在终端确认 `git clone https://github.com/<owner>/<repo>` 是否可用\n\n详细："@
}

/// The message shown for an error with outermost message `first`, full
/// chain text `full` and root cause `root`.
pub open spec fn spec_format_error(first: Seq<char>, full: Seq<char>, root: Seq<char>) -> Seq<char> {
    if is_flow_message(first) {
        first
    } else {
        let f = redact_clone(full);
        let lower = lowercase(f);
        if contains(lower, "github.com"@) && (contains(lower, "clone "@) || contains(lower, "remote"@)
            || contains(lower, "fetch"@)) {
            if contains(lower, "securetransport"@) {
                tls_message_head() + root
            } else {
                github_hint(lower) + "\n\n详细："@ + root
            }
        } else {
            f
        }
    }
}

fn redact_clone_vec(full: &[char]) -> (r: Vec<char>)
    ensures
        r@ == redact_clone(full@),
{
    let ls = lines_vec(full);
    if ls.len() > 0 && starts_with_vec(&ls[0], &chars_of("clone ")) {
        assert(ls@[0]@ == lines(full@)[0]);
        match find_vec(&ls[0], &chars_of(" into "), 0) {
            Some(pos) => {
                proof { crate::text::lemma_find_pat(ls@[0]@, " into "@, 0); }
                let mut head = slice_vec(&ls[0], 0, pos);
                extend_vec(&mut head, &chars_of(" (已省略临时目录)"));
                let rest = join_from(&ls, 1, &chars_of("\n"));
                proof {
                    assert(ls@.subrange(1, ls@.len() as int).map_values(|v: Vec<char>| v@)
                        =~= lines(full@).skip(1));
                }
                if rest.len() == 0 {
                    head
                } else {
                    extend_vec(&mut head, &chars_of("\n"));
                    extend_vec(&mut head, &rest);
                    head
                }
            },
            None => slice_vec(full, 0, full.len()),
        }
    } else {
        proof {
            if ls@.len() > 0 {
                assert(ls@[0]@ == lines(full@)[0]);
            }
        }
        slice_vec(full, 0, full.len())
    }
}

fn any_contains(s: &[char], a: &str, b: &str, c: &str) -> (r: bool)
    ensures
        r == (contains(s@, a@) || contains(s@, b@) || contains(s@, c@)),
{
    contains_vec(s, &chars_of(a)) || contains_vec(s, &chars_of(b)) || contains_vec(s, &chars_of(c))
}

fn github_hint_vec(lower: &[char]) -> (r: &'static str)
    ensures
        r@ == github_hint(lower@),
{
    if any_contains(lower, "authentication", "permission denied", "credentials") {
        "无法访问该仓库：可能是私有仓库/权限不足/需要鉴权。"
    } else if contains_vec(lower, &chars_of("not found")) {
        "仓库不存在或无权限访问（GitHub 返回 not found）。"
    } else if any_contains(lower, "failed to resolve", "could not resolve", "dns") {
        "无法解析 GitHub 域名（DNS）。请检查网络/代理。"
    } else if contains_vec(lower, &chars_of("timed out")) || contains_vec(lower, &chars_of("timeout")) {
        "连接 GitHub 超时。请检查网络/代理。"
    } else if contains_vec(lower, &chars_of("connection refused")) || contains_vec(lower, &chars_of("connection reset")) {
        "连接 GitHub 失败（连接被拒绝/重置）。请检查网络/代理。"
    } else {
        "无法从 GitHub 拉取仓库。请检查网络/代理，或稍后重试。"
    }
}

/// The user-facing message for an error given its outermost message, its
/// full chain text and its root cause.
pub fn format_error_text(first: &str, full: &str, root: &str) -> (r: String)
    ensures
        r@ == spec_format_error(first@, full@, root@),
{
    let fv = chars_of(first);
    if starts_with_vec(&fv, &chars_of("MULTI_SKILLS|")) || starts_with_vec(&fv, &chars_of("TARGET_EXISTS|"))
        || starts_with_vec(&fv, &chars_of("TOOL_NOT_INSTALLED|")) {
        return owned(first);
    }
    let f = redact_clone_vec(&chars_of(full));
    let lower = lowercase_vec(&f);
    if contains_vec(&lower, &chars_of("github.com")) && any_contains(&lower, "clone ", "remote", "fetch") {
        if contains_vec(&lower, &chars_of("securetransport")) {
            let mut out = chars_of("无法从 GitHub 拉取仓库：TLS/证书校验失败（macOS SecureTransport）。\n\n建议：\n- 检查网络/代理是否拦截 HTTPS\n- 如在公司网络，可能需要安装公司根证书或使用可信代理\n- 也可在终端确认 `git clone https://github.com/<owner>/<repo>` 是否可用\n\n详细：");
            extend_vec(&mut out, &chars_of(root));
            return string_of(&out);
        }
        let mut out = chars_of(github_hint_vec(&lower));
        extend_vec(&mut out, &chars_of("\n\n详细："));
        extend_vec(&mut out, &chars_of(root));
        return string_of(&out);
    }
    string_of(&f)
}

/// The message shown to the user for an error.
pub fn format_anyhow_error(err: anyhow::Error) -> (r: String)
    ensures
        r@ == spec_format_error(error_message(err), error_chain_message(err), error_root_message(err)),
{
    let first = error_text(&err);
    let full = error_chain_text(&err);
    let root = error_root_text(&err);
    format_error_text(first.as_str(), full.as_str(), root.as_str())
}

} // verus!
