//! The fixed remote layout of WebDAV backups: where the backup file lives,
//! which collections must exist before it is written, and how request URLs
//! are formed. The HTTP exchange itself is performed by the caller.

use vstd::prelude::*;
use crate::app_config::WebDavConfig;
use crate::text::{
    chars_of, extend_vec, split_char, split_char_vec, string_of, strip_prefix_all,
    strip_prefix_all_vec, strip_suffix_all, strip_suffix_all_vec, trim, trim_vec, vec_eq,
};

verus! {

/// Remote file name used for the combined backup blob.
pub const BACKUP_REMOTE_FILE: &'static str = "skilldo-backup.json";

/// Why a WebDAV profile or remote directory cannot be used.
#[derive(Debug, Clone, Copy, PartialEq, Eq)]
pub enum WebDavError {
    /// The server URL is empty once trailing slashes are removed.
    MissingUrl,
    /// The remote directory contains a `.` or `..` segment.
    DotSegment,
}

impl WebDavError {
    pub fn message(&self) -> (r: &'static str)
        ensures
            r@ == spec_webdav_error_message(*self),
    {
        match self {
            WebDavError::MissingUrl => "WebDAV URL 未配置",
            WebDavError::DotSegment => "WebDAV 远程目录不能包含 . 或 ..",
        }
    }
}

pub open spec fn spec_webdav_error_message(e: WebDavError) -> Seq<char> {
    match e {
        WebDavError::MissingUrl => "WebDAV URL 未配置"@,
        WebDavError::DotSegment => "WebDAV 远程目录不能包含 . 或 .."@,
    }
}

/// A remote directory setting without surrounding whitespace or slashes.
pub open spec fn clean_dir(remote_dir: Seq<char>) -> Seq<char> {
    strip_suffix_all(strip_prefix_all(trim(remote_dir), "/"@), "/"@)
}

fn clean_dir_vec(remote_dir: &str) -> (r: Vec<char>)
    ensures
        r@ == clean_dir(remote_dir@),
{
    let t = trim_vec(&chars_of(remote_dir));
    let a = strip_prefix_all_vec(&t, &chars_of("/"));
    strip_suffix_all_vec(&a, &chars_of("/"))
}

/// The remote path of the backup file for a remote directory setting.
pub open spec fn spec_backup_remote_path(remote_dir: Seq<char>) -> Seq<char> {
    let dir = clean_dir(remote_dir);
    if dir.len() == 0 {
        BACKUP_REMOTE_FILE@
    } else {
        dir + "/"@ + BACKUP_REMOTE_FILE@
    }
}

/// Compute the remote path for the backup file given a (possibly empty)
/// `remote_dir` profile setting.
pub fn backup_remote_path(remote_dir: &str) -> (r: String)
    ensures
        r@ == spec_backup_remote_path(remote_dir@),
{
    let dir = clean_dir_vec(remote_dir);
    if dir.len() == 0 {
        crate::text::owned(BACKUP_REMOTE_FILE)
    } else {
        let mut out = dir;
        extend_vec(&mut out, &chars_of("/"));
        extend_vec(&mut out, &chars_of(BACKUP_REMOTE_FILE));
        string_of(&out)
    }
}

/// Remote file name used for the synchronized profile.
pub const PROFILE_REMOTE_FILE: &'static str = "skilldo-profile.json";

/// The remote path of the profile file for a remote directory setting.
pub open spec fn spec_profile_remote_path(remote_dir: Seq<char>) -> Seq<char> {
    let dir = clean_dir(remote_dir);
    if dir.len() == 0 {
        PROFILE_REMOTE_FILE@
    } else {
        dir + "/"@ + PROFILE_REMOTE_FILE@
    }
}

/// The remote path of the profile file, beside the backup file.
pub fn profile_remote_path(remote_dir: &str) -> (r: String)
    ensures
        r@ == spec_profile_remote_path(remote_dir@),
{
    let dir = clean_dir_vec(remote_dir);
    if dir.len() == 0 {
        crate::text::owned(PROFILE_REMOTE_FILE)
    } else {
        let mut out = dir;
        extend_vec(&mut out, &chars_of("/"));
        extend_vec(&mut out, &chars_of(PROFILE_REMOTE_FILE));
        string_of(&out)
    }
}

/// The server URL requests are made against: the configured URL without
/// trailing slashes, refused when nothing is left.
pub fn server_base(url: &str) -> (r: Result<String, WebDavError>)
    ensures
        match r {
            Ok(b) => b@ == strip_suffix_all(url@, "/"@) && b@.len() > 0,
            Err(e) => e == WebDavError::MissingUrl && strip_suffix_all(url@, "/"@).len() == 0,
        },
{
    let b = strip_suffix_all_vec(&chars_of(url), &chars_of("/"));
    if b.len() == 0 {
        Err(WebDavError::MissingUrl)
    } else {
        Ok(string_of(&b))
    }
}

/// The URL of a remote path on the server: the base, a slash, and the path
/// without leading slashes.
pub fn full_url(base: &str, path: &str) -> (r: String)
    ensures
        r@ == base@ + "/"@ + strip_prefix_all(path@, "/"@),
{
    let mut out = chars_of(base);
    extend_vec(&mut out, &chars_of("/"));
    extend_vec(&mut out, &strip_prefix_all_vec(&chars_of(path), &chars_of("/")));
    string_of(&out)
}

/// Whether the server accepted the creation of a collection: any success,
/// or `405` for a collection that already exists.
pub fn collection_created(status: u16) -> (r: bool)
    ensures
        r == ((200 <= status && status < 300) || status == 405),
{
    (200 <= status && status < 300) || status == 405
}

/// Whether the server stored an uploaded file: any success status.
pub fn upload_stored(status: u16) -> (r: bool)
    ensures
        r == (200 <= status && status < 300),
{
    200 <= status && status < 300
}

/// The condition an upload of the synchronized profile is sent with, so
/// that it never replaces a revision this device has not seen.
#[derive(Debug, Clone, PartialEq, Eq)]
pub enum UploadGuard {
    /// The remote file must still carry this entity tag.
    IfMatch(String),
    /// No remote file may exist yet.
    IfAbsent,
}

/// The guard of an upload, from the entity tag of the remote profile this
/// device last read: that tag must still be current, or, when no remote
/// profile was read, none may have appeared since.
pub fn upload_guard(read_etag: Option<&str>) -> (r: UploadGuard)
    ensures
        match read_etag {
            Some(t) => r matches UploadGuard::IfMatch(g) && g@ == t@,
            None => r == UploadGuard::IfAbsent,
        },
{
    match read_etag {
        Some(t) => UploadGuard::IfMatch(crate::text::owned(t)),
        None => UploadGuard::IfAbsent,
    }
}

/// The request header that carries a guard: `If-Match` with the tag, or
/// `If-None-Match: *`.
pub fn guard_header(g: &UploadGuard) -> (r: (&'static str, String))
    ensures
        match g {
            UploadGuard::IfMatch(t) => r.0@ == "If-Match"@ && r.1@ == t@,
            UploadGuard::IfAbsent => r.0@ == "If-None-Match"@ && r.1@ == "*"@,
        },
{
    match g {
        UploadGuard::IfMatch(t) => ("If-Match", t.clone()),
        UploadGuard::IfAbsent => ("If-None-Match", crate::text::owned("*")),
    }
}

/// What the reply to a guarded upload means.
#[derive(Debug, Clone, Copy, PartialEq, Eq)]
pub enum GuardedUpload {
    /// The file was stored.
    Stored,
    /// The guard failed (`412`): another device published in between.
    Stale,
    /// Any other failure.
    Failed,
}

/// What the reply to a guarded upload means.
pub fn guarded_upload_outcome(status: u16) -> (r: GuardedUpload)
    ensures
        r == (if 200 <= status && status < 300 {
            GuardedUpload::Stored
        } else if status == 412 {
            GuardedUpload::Stale
        } else {
            GuardedUpload::Failed
        }),
{
    if upload_stored(status) {
        GuardedUpload::Stored
    } else if status == 412 {
        GuardedUpload::Stale
    } else {
        GuardedUpload::Failed
    }
}

/// What the reply to a download means.
#[derive(Debug, Clone, Copy, PartialEq, Eq)]
pub enum Download {
    /// The body is the file.
    Found,
    /// The file does not exist (`404`).
    Missing,
    /// Any other failure.
    Failed,
}

/// What the reply to a download means.
pub fn download_outcome(status: u16) -> (r: Download)
    ensures
        r == (if 200 <= status && status < 300 {
            Download::Found
        } else if status == 404 {
            Download::Missing
        } else {
            Download::Failed
        }),
{
    if 200 <= status && status < 300 {
        Download::Found
    } else if status == 404 {
        Download::Missing
    } else {
        Download::Failed
    }
}

/// The non-empty pieces among the first `n` of `ps`, in order.
pub open spec fn non_empty_pieces(ps: Seq<Seq<char>>, n: int) -> Seq<Seq<char>>
    decreases n,
{
    if n <= 0 {
        Seq::empty()
    } else if ps[n - 1].len() > 0 {
        non_empty_pieces(ps, n - 1).push(ps[n - 1])
    } else {
        non_empty_pieces(ps, n - 1)
    }
}

/// The path segments of a remote directory setting.
pub open spec fn dir_segments(remote_dir: Seq<char>) -> Seq<Seq<char>> {
    let ps = split_char(clean_dir(remote_dir), '/');
    non_empty_pieces(ps, ps.len() as int)
}

pub open spec fn is_dot_segment(s: Seq<char>) -> bool {
    s == "."@ || s == ".."@
}

/// Every ancestor collection of the first `n` segments, outermost first:
/// `a`, `a/b`, `a/b/c`, ...
pub open spec fn ancestors(segs: Seq<Seq<char>>, n: int) -> Seq<Seq<char>>
    decreases n,
{
    if n <= 0 {
        Seq::empty()
    } else if n == 1 {
        seq![segs[0]]
    } else {
        let prev = ancestors(segs, n - 1);
        prev.push(prev.last() + "/"@ + segs[n - 1])
    }
}

/// The collections to create, outermost first, or the reason the remote
/// directory is refused.
pub open spec fn spec_collection_paths(remote_dir: Seq<char>) -> Result<Seq<Seq<char>>, WebDavError> {
    let segs = dir_segments(remote_dir);
    if exists|i: int| 0 <= i < segs.len() && #[trigger] is_dot_segment(segs[i]) {
        Err(WebDavError::DotSegment)
    } else {
        Ok(ancestors(segs, segs.len() as int))
    }
}

proof fn lemma_ancestors_len(segs: Seq<Seq<char>>, n: int)
    requires
        0 <= n,
    ensures
        ancestors(segs, n).len() == n,
    decreases n,
{
    if n > 1 {
        lemma_ancestors_len(segs, n - 1);
    }
}

proof fn lemma_non_empty_pieces_len(ps: Seq<Seq<char>>, n: int)
    requires
        0 <= n,
    ensures
        non_empty_pieces(ps, n).len() <= n,
    decreases n,
{
    if n > 0 {
        lemma_non_empty_pieces_len(ps, n - 1);
    }
}

/// Every collection that must exist before the backup file is written,
/// outermost first.
pub fn collection_paths(remote_dir: &str) -> (r: Result<Vec<String>, WebDavError>)
    ensures
        match (r, spec_collection_paths(remote_dir@)) {
            (Ok(v), Ok(s)) => crate::order::views(v@) == s,
            (Err(e), Err(f)) => e == f,
            _ => false,
        },
{
    let dir = clean_dir_vec(remote_dir);
    let ps = split_char_vec(&dir, '/');
    let ghost sp = split_char(dir@, '/');
    let mut segs: Vec<Vec<char>> = Vec::new();
    let mut i: usize = 0;
    while i < ps.len()
        invariant
            i <= ps@.len() == sp.len(),
            forall|k: int| 0 <= k < ps@.len() ==> #[trigger] ps@[k]@ == sp[k],
            segs@.len() == non_empty_pieces(sp, i as int).len(),
            forall|k: int| 0 <= k < segs@.len() ==> #[trigger] segs@[k]@ == non_empty_pieces(sp, i as int)[k],
        decreases ps.len() - i,
    {
        assert(ps@[i as int]@ == sp[i as int]);
        if ps[i].len() > 0 {
            let ghost prev = segs@;
            segs.push(slice_all(&ps[i]));
            proof {
                assert forall|k: int| 0 <= k < segs@.len() implies #[trigger] segs@[k]@ == non_empty_pieces(sp, i + 1)[k] by {
                    if k < prev.len() {
                        assert(segs@[k] == prev[k]);
                    }
                }
            }
        }
        i = i + 1;
    }
    let ghost segv = dir_segments(remote_dir@);
    let mut j: usize = 0;
    while j < segs.len()
        invariant
            j <= segs@.len() == segv.len(),
            segv == dir_segments(remote_dir@),
            forall|k: int| 0 <= k < segs@.len() ==> #[trigger] segs@[k]@ == segv[k],
            forall|k: int| 0 <= k < j ==> !#[trigger] is_dot_segment(segv[k]),
        decreases segs.len() - j,
    {
        assert(segs@[j as int]@ == segv[j as int]);
        if vec_eq(&segs[j], &chars_of(".")) || vec_eq(&segs[j], &chars_of("..")) {
            assert(is_dot_segment(segv[j as int]));
            assert(exists|i: int| 0 <= i < segv.len() && #[trigger] is_dot_segment(segv[i]));
            return Err(WebDavError::DotSegment);
        }
        j = j + 1;
    }
    let mut paths: Vec<String> = Vec::new();
    let mut current: Vec<char> = Vec::new();
    let mut k: usize = 0;
    while k < segs.len()
        invariant
            k <= segs@.len() == segv.len(),
            segv == dir_segments(remote_dir@),
            forall|m: int| 0 <= m < segv.len() ==> !#[trigger] is_dot_segment(segv[m]),
            forall|m: int| 0 <= m < segs@.len() ==> #[trigger] segs@[m]@ == segv[m],
            crate::order::views(paths@) == ancestors(segv, k as int),
            k > 0 ==> current@ == ancestors(segv, k as int).last(),
            k == 0 ==> current@.len() == 0,
        decreases segs.len() - k,
    {
        proof { lemma_ancestors_len(segv, k as int); }
        assert(segs@[k as int]@ == segv[k as int]);
        if k > 0 {
            extend_vec(&mut current, &chars_of("/"));
        }
        extend_vec(&mut current, &segs[k]);
        let ghost prevp = crate::order::views(paths@);
        paths.push(string_of(&current));
        assert(crate::order::views(paths@) =~= prevp.push(current@));
        k = k + 1;
        proof {
            lemma_ancestors_len(segv, k as int);
        }
        assert(crate::order::views(paths@) =~= ancestors(segv, k as int));
    }
    Ok(paths)
}

fn slice_all(v: &Vec<char>) -> (r: Vec<char>)
    ensures
        r@ == v@,
{
    let r = crate::text::slice_vec(v, 0, v.len());
    assert(r@ =~= v@);
    r
}

} // verus!
