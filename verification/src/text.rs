//! Character-sequence utilities with exact specifications.
//!
//! Every string is reasoned about through its view, a `Seq<char>`. The
//! executable helpers work on `Vec<char>` buffers and convert at the edges.

use vstd::prelude::*;

verus! {

/// Unicode `White_Space` code points, exactly the set accepted by
/// `char::is_whitespace`.
pub open spec fn is_ws(c: char) -> bool {
    let n = c as u32;
    (9 <= n && n <= 13) || n == 32 || n == 0x85 || n == 0xa0 || n == 0x1680
        || (0x2000 <= n && n <= 0x200a) || n == 0x2028 || n == 0x2029 || n == 0x202f
        || n == 0x205f || n == 0x3000
}

pub fn char_is_ws(c: char) -> (r: bool)
    ensures
        r == is_ws(c),
{
    let n = c as u32;
    (9 <= n && n <= 13) || n == 32 || n == 0x85 || n == 0xa0 || n == 0x1680
        || (0x2000 <= n && n <= 0x200a) || n == 0x2028 || n == 0x2029 || n == 0x202f
        || n == 0x205f || n == 0x3000
}

/// Number of leading whitespace characters of `s`.
pub open spec fn lead_ws(s: Seq<char>) -> nat
    decreases s.len(),
{
    if s.len() > 0 && is_ws(s[0]) {
        1 + lead_ws(s.drop_first())
    } else {
        0
    }
}

/// `s` with leading whitespace removed (`str::trim_start`).
pub open spec fn trim_start(s: Seq<char>) -> Seq<char> {
    s.skip(lead_ws(s) as int)
}

/// `s` with trailing whitespace removed (`str::trim_end`).
pub open spec fn trim_end(s: Seq<char>) -> Seq<char>
    decreases s.len(),
{
    if s.len() > 0 && is_ws(s.last()) {
        trim_end(s.drop_last())
    } else {
        s
    }
}

/// `str::trim`: both ends stripped of whitespace.
pub open spec fn trim(s: Seq<char>) -> Seq<char> {
    trim_end(trim_start(s))
}

/// Append one character to a `String`.
#[verifier::external_body]
pub(crate) fn push_char(s: &mut String, c: char)
    ensures
        final(s)@ == old(s)@.push(c),
{
    s.push(c);
}

/// The characters of `s`, in order.
pub fn chars_of(s: &str) -> (v: Vec<char>)
    ensures
        v@ == s@,
{
    let mut v: Vec<char> = Vec::new();
    for c in it: s.chars()
        invariant
            v@ == it.seq().take(it.index() as int),
            it.seq() == s@,
    {
        v.push(c);
    }
    v
}

/// Build a `String` holding exactly the characters of `v`.
pub fn string_of(v: &[char]) -> (s: String)
    ensures
        s@ == v@,
{
    let mut s = String::new();
    let mut i: usize = 0;
    while i < v.len()
        invariant
            i <= v.len(),
            s@ == v@.subrange(0, i as int),
        decreases v.len() - i,
    {
        push_char(&mut s, v[i]);
        i = i + 1;
        assert(s@ =~= v@.subrange(0, i as int));
    }
    assert(v@.subrange(0, v@.len() as int) =~= v@);
    s
}


/// Copy of `v[a..b]`.
pub fn slice_vec(v: &[char], a: usize, b: usize) -> (r: Vec<char>)
    requires
        a <= b <= v@.len(),
    ensures
        r@ == v@.subrange(a as int, b as int),
{
    let mut r: Vec<char> = Vec::new();
    let mut i = a;
    while i < b
        invariant
            a <= i <= b <= v@.len(),
            r@ == v@.subrange(a as int, i as int),
        decreases b - i,
    {
        r.push(v[i]);
        i = i + 1;
        assert(r@ =~= v@.subrange(a as int, i as int));
    }
    r
}

proof fn lemma_lead_ws_step(s: Seq<char>, i: int)
    requires
        0 <= i < s.len(),
        is_ws(s[i]),
    ensures
        lead_ws(s.skip(i)) == 1 + lead_ws(s.skip(i + 1)),
{
    assert(s.skip(i).drop_first() =~= s.skip(i + 1));
}

proof fn lemma_trim_end_step(t: Seq<char>, j: int)
    requires
        0 < j <= t.len(),
        is_ws(t[j - 1]),
    ensures
        trim_end(t.subrange(0, j)) == trim_end(t.subrange(0, j - 1)),
{
    assert(t.subrange(0, j).drop_last() =~= t.subrange(0, j - 1));
}

/// Exec `str::trim` on a character buffer.
pub fn trim_vec(v: &[char]) -> (r: Vec<char>)
    ensures
        r@ == trim(v@),
{
    let n = v.len();
    let mut i: usize = 0;
    assert(v@.skip(0) =~= v@);
    while i < n && char_is_ws(v[i])
        invariant
            i <= n == v@.len(),
            lead_ws(v@) == i + lead_ws(v@.skip(i as int)),
        decreases n - i,
    {
        proof { lemma_lead_ws_step(v@, i as int); }
        i = i + 1;
    }
    assert(lead_ws(v@.skip(i as int)) == 0);
    let ghost t = v@.skip(i as int);
    assert(trim_start(v@) == t);
    let mut j: usize = n;
    assert(t.subrange(0, (n - i) as int) =~= t);
    while j > i && char_is_ws(v[j - 1])
        invariant
            i <= j <= n == v@.len(),
            t == v@.skip(i as int),
            trim_end(t) == trim_end(t.subrange(0, (j - i) as int)),
        decreases j,
    {
        proof { lemma_trim_end_step(t, (j - i) as int); }
        j = j - 1;
    }
    let r = slice_vec(v, i, j);
    assert(r@ =~= t.subrange(0, (j - i) as int));
    r
}

/// `str::trim` with the result as a new `String`.
pub fn trim_str(s: &str) -> (r: String)
    ensures
        r@ == trim(s@),
{
    let v = chars_of(s);
    let t = trim_vec(&v);
    string_of(&t)
}

/// `p` is a prefix of `s`.
pub open spec fn has_prefix(s: Seq<char>, p: Seq<char>) -> bool {
    p.len() <= s.len() && s.subrange(0, p.len() as int) == p
}

/// `p` is a suffix of `s`.
pub open spec fn has_suffix(s: Seq<char>, p: Seq<char>) -> bool {
    p.len() <= s.len() && s.subrange(s.len() - p.len(), s.len() as int) == p
}

/// `p` occurs in `s` starting at index `i`.
pub open spec fn occurs_at(s: Seq<char>, p: Seq<char>, i: int) -> bool {
    0 <= i && i + p.len() <= s.len() && s.subrange(i, i + p.len()) == p
}

/// `str::contains` with a string pattern.
pub open spec fn contains(s: Seq<char>, p: Seq<char>) -> bool {
    exists|i: int| occurs_at(s, p, i)
}

/// `str::trim_start_matches` with a non-empty string pattern: every leading
/// repetition of `p` is removed.
pub open spec fn strip_prefix_all(s: Seq<char>, p: Seq<char>) -> Seq<char>
    decreases s.len(),
{
    if p.len() > 0 && has_prefix(s, p) {
        strip_prefix_all(s.skip(p.len() as int), p)
    } else {
        s
    }
}

/// `str::trim_end_matches` with a non-empty string pattern.
pub open spec fn strip_suffix_all(s: Seq<char>, p: Seq<char>) -> Seq<char>
    decreases s.len(),
{
    if p.len() > 0 && has_suffix(s, p) {
        strip_suffix_all(s.subrange(0, s.len() - p.len()), p)
    } else {
        s
    }
}

/// `s.subrange(a, a + p.len()) == p`, decided by comparing characters.
pub fn matches_at(s: &[char], p: &[char], a: usize) -> (r: bool)
    ensures
        r == occurs_at(s@, p@, a as int),
{
    if a > s.len() || p.len() > s.len() - a {
        return false;
    }
    let mut k: usize = 0;
    while k < p.len()
        invariant
            a + p@.len() <= s@.len(),
            s@.len() == s.len(),
            p@.len() == p.len(),
            k <= p@.len(),
            forall|m: int| 0 <= m < k ==> s@[a + m] == p@[m],
        decreases p.len() - k,
    {
        if s[a + k] != p[k] {
            assert(s@.subrange(a as int, a + p@.len())[k as int] != p@[k as int]);
            return false;
        }
        k = k + 1;
    }
    assert(s@.subrange(a as int, a + p@.len()) =~= p@);
    true
}

/// `str::starts_with`.
pub fn starts_with_vec(s: &[char], p: &[char]) -> (r: bool)
    ensures
        r == has_prefix(s@, p@),
{
    matches_at(s, p, 0)
}

/// `str::ends_with`.
pub fn ends_with_vec(s: &[char], p: &[char]) -> (r: bool)
    ensures
        r == has_suffix(s@, p@),
{
    if p.len() > s.len() {
        false
    } else {
        matches_at(s, p, s.len() - p.len())
    }
}

/// `str::contains`.
pub fn contains_vec(s: &[char], p: &[char]) -> (r: bool)
    ensures
        r == contains(s@, p@),
{
    if p.len() > s.len() {
        assert forall|i: int| !occurs_at(s@, p@, i) by {}
        return false;
    }
    if p.len() == 0 {
        assert(s@.subrange(0, 0) =~= p@);
        assert(occurs_at(s@, p@, 0));
        return true;
    }
    let mut i: usize = 0;
    while i <= s.len() - p.len()
        invariant
            0 < p@.len() <= s@.len(),
            i <= s@.len() - p@.len() + 1,
            forall|m: int| 0 <= m < i ==> !occurs_at(s@, p@, m),
        decreases s.len() - p.len() + 1 - i,
    {
        if matches_at(s, p, i) {
            return true;
        }
        i = i + 1;
    }
    assert forall|m: int| !occurs_at(s@, p@, m) by {
        if 0 <= m < i {
        }
    }
    false
}

/// Exec `str::trim_start_matches(p)` for a non-empty pattern.
pub fn strip_prefix_all_vec(s: &[char], p: &[char]) -> (r: Vec<char>)
    ensures
        r@ == strip_prefix_all(s@, p@),
{
    if p.len() == 0 {
        return slice_vec(s, 0, s.len());
    }
    let mut i: usize = 0;
    assert(s@.skip(0) =~= s@);
    while i <= s.len() && p.len() <= s.len() - i && matches_at(s, p, i)
        invariant
            p@.len() > 0,
            i <= s@.len(),
            strip_prefix_all(s@, p@) == strip_prefix_all(s@.skip(i as int), p@),
        decreases s.len() - i,
    {
        proof {
            assert(s@.skip(i as int).subrange(0, p@.len() as int) =~= s@.subrange(i as int, i + p@.len()));
            assert(s@.skip(i as int).skip(p@.len() as int) =~= s@.skip(i + p@.len()));
        }
        i = i + p.len();
    }
    proof {
        if p@.len() <= s@.len() - i {
            assert(s@.skip(i as int).subrange(0, p@.len() as int) =~= s@.subrange(i as int, i + p@.len()));
        }
    }
    let r = slice_vec(s, i, s.len());
    assert(r@ =~= s@.skip(i as int));
    r
}

/// Exec `str::trim_end_matches(p)` for a non-empty pattern.
pub fn strip_suffix_all_vec(s: &[char], p: &[char]) -> (r: Vec<char>)
    ensures
        r@ == strip_suffix_all(s@, p@),
{
    if p.len() == 0 {
        return slice_vec(s, 0, s.len());
    }
    let mut j: usize = s.len();
    assert(s@.subrange(0, j as int) =~= s@);
    while p.len() <= j && matches_at(s, p, j - p.len())
        invariant
            p@.len() > 0,
            j <= s@.len(),
            strip_suffix_all(s@, p@) == strip_suffix_all(s@.subrange(0, j as int), p@),
        decreases j,
    {
        proof {
            let t = s@.subrange(0, j as int);
            assert(t.subrange(t.len() - p@.len(), t.len() as int) =~= s@.subrange(j - p@.len(), j as int));
            assert(t.subrange(0, t.len() - p@.len()) =~= s@.subrange(0, j - p@.len()));
        }
        j = j - p.len();
    }
    proof {
        let t = s@.subrange(0, j as int);
        if p@.len() <= j {
            assert(t.subrange(t.len() - p@.len(), t.len() as int) =~= s@.subrange(j - p@.len(), j as int));
        }
    }
    slice_vec(s, 0, j)
}


/// `str::replace(from, to)` for a non-empty `from`: leftmost,
/// non-overlapping occurrences are replaced.
pub open spec fn replace_all(s: Seq<char>, from: Seq<char>, to: Seq<char>) -> Seq<char>
    decreases s.len(),
{
    if from.len() == 0 || s.len() < from.len() {
        s
    } else if has_prefix(s, from) {
        to + replace_all(s.skip(from.len() as int), from, to)
    } else {
        seq![s[0]] + replace_all(s.drop_first(), from, to)
    }
}

/// Exec `str::replace` for a non-empty pattern.
pub fn replace_vec(s: &[char], from: &[char], to: &[char]) -> (r: Vec<char>)
    ensures
        r@ == replace_all(s@, from@, to@),
{
    if from.len() == 0 {
        return slice_vec(s, 0, s.len());
    }
    let mut out: Vec<char> = Vec::new();
    let mut i: usize = 0;
    assert(s@.skip(0) =~= s@);
    while i < s.len()
        invariant
            from@.len() > 0,
            i <= s@.len(),
            replace_all(s@, from@, to@) == out@ + replace_all(s@.skip(i as int), from@, to@),
        decreases s.len() - i,
    {
        let ghost rest = s@.skip(i as int);
        if from.len() <= s.len() - i && matches_at(s, from, i) {
            proof {
                assert(rest.subrange(0, from@.len() as int) =~= s@.subrange(i as int, i + from@.len()));
                assert(rest.skip(from@.len() as int) =~= s@.skip(i + from@.len()));
            }
            let mut k: usize = 0;
            let ghost out0 = out@;
            while k < to.len()
                invariant
                    k <= to@.len(),
                    out@ == out0 + to@.subrange(0, k as int),
                decreases to.len() - k,
            {
                out.push(to[k]);
                k = k + 1;
                assert(out@ =~= out0 + to@.subrange(0, k as int));
            }
            assert(to@.subrange(0, to@.len() as int) =~= to@);
            assert(out0 + (to@ + replace_all(s@.skip(i + from@.len()), from@, to@)) =~= out@ + replace_all(s@.skip(i + from@.len()), from@, to@));
            i = i + from.len();
        } else {
            proof {
                if from@.len() <= s@.len() - i {
                    assert(rest.subrange(0, from@.len() as int) =~= s@.subrange(i as int, i + from@.len()));
                    assert(rest.drop_first() =~= s@.skip(i + 1));
                } else {
                    assert(rest.len() < from@.len());
                }
            }
            let ghost out0 = out@;
            out.push(s[i]);
            proof {
                if from@.len() <= s@.len() - i {
                    assert(out0 + (seq![rest[0]] + replace_all(s@.skip(i + 1), from@, to@)) =~= out@ + replace_all(s@.skip(i + 1), from@, to@));
                } else {
                    lemma_replace_short(s@.skip(i + 1), from@, to@);
                    assert(rest =~= seq![s@[i as int]] + s@.skip(i + 1));
                    assert(out0 + rest =~= out@ + s@.skip(i + 1));
                }
            }
            i = i + 1;
        }
    }
    assert(s@.skip(i as int).len() == 0);
    assert(out@ + replace_all(s@.skip(i as int), from@, to@) =~= out@);
    out
}

proof fn lemma_replace_short(s: Seq<char>, from: Seq<char>, to: Seq<char>)
    requires
        s.len() < from.len(),
    ensures
        replace_all(s, from, to) == s,
{
}

/// The lowercase form of `s` as computed by `str::to_lowercase`.
pub uninterp spec fn lowercase(s: Seq<char>) -> Seq<char>;

/// Every character is ASCII.
pub open spec fn all_ascii(s: Seq<char>) -> bool {
    forall|i: int| 0 <= i < s.len() ==> (#[trigger] s[i] as u32) < 128
}

/// Calls `str::to_lowercase`; its Unicode case mapping is named by
/// `lowercase` and not restated here, except on ASCII text, where it maps
/// `A`-`Z` to `a`-`z` and leaves every other character as it is.
#[verifier::external_body]
pub(crate) fn to_lowercase_str(s: &str) -> (r: String)
    ensures
        r@ == lowercase(s@),
        all_ascii(s@) ==> r@ == ascii_lower(s@),
{
    s.to_lowercase()
}

/// Lowercase a character buffer with `str::to_lowercase`.
pub fn lowercase_vec(v: &[char]) -> (r: Vec<char>)
    ensures
        r@ == lowercase(v@),
        r@ == text_lower(v@),
{
    let s = string_of(v);
    let l = to_lowercase_str(s.as_str());
    chars_of(l.as_str())
}

/// ASCII case folding of one character (`char::to_ascii_lowercase`).
pub open spec fn ascii_lower_char(c: char) -> char {
    if 'A' <= c && c <= 'Z' {
        ((c as u32) + 32) as char
    } else {
        c
    }
}

/// `str::to_ascii_lowercase`.
pub open spec fn ascii_lower(s: Seq<char>) -> Seq<char> {
    s.map_values(|c: char| ascii_lower_char(c))
}

pub fn ascii_lower_char_exec(c: char) -> (r: char)
    ensures
        r == ascii_lower_char(c),
{
    if 'A' <= c && c <= 'Z' {
        let b = c as u8;
        (b + 32) as char
    } else {
        c
    }
}

pub fn ascii_lower_vec(v: &[char]) -> (r: Vec<char>)
    ensures
        r@ == ascii_lower(v@),
{
    let mut r: Vec<char> = Vec::new();
    let mut i: usize = 0;
    while i < v.len()
        invariant
            i <= v@.len(),
            r@ == ascii_lower(v@.subrange(0, i as int)),
        decreases v.len() - i,
    {
        r.push(ascii_lower_char_exec(v[i]));
        i = i + 1;
        assert(r@ =~= ascii_lower(v@.subrange(0, i as int)));
    }
    assert(v@.subrange(0, v@.len() as int) =~= v@);
    r
}

/// `str::to_lowercase` as far as it is stated: ASCII case folding on ASCII
/// text, the named Unicode mapping on any other.
pub open spec fn text_lower(v: Seq<char>) -> Seq<char> {
    if all_ascii(v) { ascii_lower(v) } else { lowercase(v) }
}

/// ASCII text without uppercase letters.
pub open spec fn lower_ascii(s: Seq<char>) -> bool {
    forall|i: int| 0 <= i < s.len() ==> (#[trigger] s[i] as u32) < 128 && !('A' <= s[i] && s[i] <= 'Z')
}

pub proof fn lemma_lower_ascii_skip(s: Seq<char>, k: int)
    requires
        lower_ascii(s),
        0 <= k <= s.len(),
    ensures
        lower_ascii(s.skip(k)),
        lower_ascii(s.take(k)),
{
    assert forall|i: int| 0 <= i < s.skip(k).len() implies (#[trigger] s.skip(k)[i] as u32) < 128
        && !('A' <= s.skip(k)[i] && s.skip(k)[i] <= 'Z') by {
        assert(s.skip(k)[i] == s[i + k]);
    }
    assert forall|i: int| 0 <= i < s.take(k).len() implies (#[trigger] s.take(k)[i] as u32) < 128
        && !('A' <= s.take(k)[i] && s.take(k)[i] <= 'Z') by {
        assert(s.take(k)[i] == s[i]);
    }
}

pub proof fn lemma_ascii_lower_is_lower(v: Seq<char>)
    requires
        all_ascii(v),
    ensures
        lower_ascii(ascii_lower(v)),
{
    assert forall|i: int| 0 <= i < ascii_lower(v).len() implies (#[trigger] ascii_lower(v)[i] as u32) < 128
        && !('A' <= ascii_lower(v)[i] && ascii_lower(v)[i] <= 'Z') by {
        let c = v[i];
        assert((c as u32) < 128);
        if 'A' <= c && c <= 'Z' {
            assert(((c as u32) + 32) as char as u32 == (c as u32) + 32);
        }
    }
}

/// Lowercase ASCII text is its own lowercase form.
pub proof fn lemma_lower_ascii_fixed(s: Seq<char>)
    requires
        lower_ascii(s),
    ensures
        all_ascii(s),
        ascii_lower(s) == s,
        text_lower(s) == s,
{
    assert(ascii_lower(s) =~= s);
}

/// `str::eq_ignore_ascii_case`.
pub open spec fn eq_ignore_ascii_case(a: Seq<char>, b: Seq<char>) -> bool {
    ascii_lower(a) == ascii_lower(b)
}

pub fn eq_ignore_ascii_case_vec(a: &[char], b: &[char]) -> (r: bool)
    ensures
        r == eq_ignore_ascii_case(a@, b@),
{
    let la = ascii_lower_vec(a);
    let lb = ascii_lower_vec(b);
    vec_eq(&la, &lb)
}

/// Character-wise equality of two buffers.
pub fn vec_eq(a: &[char], b: &[char]) -> (r: bool)
    ensures
        r == (a@ == b@),
{
    if a.len() != b.len() {
        return false;
    }
    let mut i: usize = 0;
    while i < a.len()
        invariant
            a@.len() == b@.len(),
            i <= a@.len(),
            forall|k: int| 0 <= k < i ==> a@[k] == b@[k],
        decreases a.len() - i,
    {
        if a[i] != b[i] {
            return false;
        }
        i = i + 1;
    }
    assert(a@ =~= b@);
    true
}

/// Index of the first occurrence of `p` in `s` at or after `i`, or -1.
pub open spec fn find_pat(s: Seq<char>, p: Seq<char>, i: int) -> int
    decreases s.len() + 1 - i,
{
    if i < 0 || i > s.len() || i + p.len() > s.len() {
        -1
    } else if occurs_at(s, p, i) {
        i
    } else {
        find_pat(s, p, i + 1)
    }
}

pub proof fn lemma_find_pat(s: Seq<char>, p: Seq<char>, i: int)
    requires
        0 <= i,
    ensures
        find_pat(s, p, i) == -1 ==> forall|k: int| i <= k ==> !occurs_at(s, p, k),
        find_pat(s, p, i) != -1 ==> {
            &&& i <= find_pat(s, p, i)
            &&& find_pat(s, p, i) + p.len() <= s.len()
            &&& occurs_at(s, p, find_pat(s, p, i))
            &&& forall|k: int| i <= k < find_pat(s, p, i) ==> !occurs_at(s, p, k)
        },
    decreases s.len() + 1 - i,
{
    if i > s.len() || i + p.len() > s.len() {
    } else if occurs_at(s, p, i) {
    } else {
        lemma_find_pat(s, p, i + 1);
        assert forall|k: int| i <= k < find_pat(s, p, i) implies !occurs_at(s, p, k) by {
            if k == i {
            }
        }
        assert forall|k: int| i <= k && find_pat(s, p, i) == -1 implies !occurs_at(s, p, k) by {
            if k == i {
            }
        }
    }
}

/// Exec `find_pat`.
pub fn find_vec(s: &[char], p: &[char], from: usize) -> (r: Option<usize>)
    ensures
        r matches Some(k) ==> k == find_pat(s@, p@, from as int),
        r is None ==> find_pat(s@, p@, from as int) == -1,
    decreases s.len() + 1 - from,
{
    if from > s.len() || p.len() > s.len() - from {
        return None;
    }
    if p.len() == 0 {
        assert(s@.subrange(from as int, from as int) =~= p@);
        return Some(from);
    }
    if matches_at(s, p, from) {
        return Some(from);
    }
    find_vec(s, p, from + 1)
}

/// The part of `s` before the first occurrence of `p` (all of `s` when `p`
/// does not occur): `s.split(p).next()`.
pub open spec fn before_first(s: Seq<char>, p: Seq<char>) -> Seq<char> {
    let k = find_pat(s, p, 0);
    if k == -1 {
        s
    } else {
        s.take(k)
    }
}

/// The part of `s` after the first occurrence of `p`, if any:
/// `s.split_once(p).map(|(_, tail)| tail)`.
pub open spec fn after_first(s: Seq<char>, p: Seq<char>) -> Option<Seq<char>> {
    let k = find_pat(s, p, 0);
    if k == -1 {
        None
    } else {
        Some(s.skip(k + p.len()))
    }
}

pub fn before_first_vec(s: &[char], p: &[char]) -> (r: Vec<char>)
    ensures
        r@ == before_first(s@, p@),
{
    match find_vec(s, p, 0) {
        None => slice_vec(s, 0, s.len()),
        Some(k) => {
            proof { lemma_find_pat(s@, p@, 0); }
            slice_vec(s, 0, k)
        },
    }
}

pub fn after_first_vec(s: &[char], p: &[char]) -> (r: Option<Vec<char>>)
    ensures
        r matches Some(v) ==> after_first(s@, p@) == Some(v@),
        r is None ==> after_first(s@, p@) is None,
{
    match find_vec(s, p, 0) {
        None => None,
        Some(k) => {
            proof { lemma_find_pat(s@, p@, 0); }
            assert(k + p@.len() <= s@.len());
            assert(s@.len() == s.len());
            let v = slice_vec(s, k + p.len(), s.len());
            assert(v@ =~= s@.skip(k + p@.len()));
            Some(v)
        },
    }
}

/// `s.split(c)`: the pieces between occurrences of `c`, in order.
pub open spec fn split_char(s: Seq<char>, c: char) -> Seq<Seq<char>>
    decreases s.len(),
{
    let k = find_pat(s, seq![c], 0);
    if k < 0 || k >= s.len() {
        seq![s]
    } else {
        seq![s.take(k)].add(split_char(s.skip(k + 1), c))
    }
}

/// Exec `split_char`: the pieces of `s` between occurrences of `c`.
pub fn split_char_vec(s: &[char], c: char) -> (r: Vec<Vec<char>>)
    ensures
        r@.len() == split_char(s@, c).len(),
        forall|i: int| 0 <= i < r@.len() ==> #[trigger] r@[i]@ == split_char(s@, c)[i],
{
    let sep = vec![c];
    let mut out: Vec<Vec<char>> = Vec::new();
    let mut start: usize = 0;
    let ghost done: Seq<Seq<char>> = Seq::empty();
    assert(s@.skip(0) =~= s@);
    loop
        invariant
            start <= s@.len(),
            sep@ == seq![c],
            out@.len() == done.len(),
            forall|i: int| 0 <= i < out@.len() ==> #[trigger] out@[i]@ == done[i],
            split_char(s@, c) == done + split_char(s@.skip(start as int), c),
        decreases s.len() - start,
    {
        let ghost rest = s@.skip(start as int);
        match find_vec(s, &sep, start) {
            None => {
                proof {
                    lemma_find_pat(s@, seq![c], start as int);
                    lemma_find_pat(rest, seq![c], 0);
                    if find_pat(rest, seq![c], 0) != -1 {
                        let k = find_pat(rest, seq![c], 0);
                        assert(rest.subrange(k, k + 1) =~= s@.subrange(start + k, start + k + 1));
                        assert(occurs_at(s@, seq![c], start + k));
                    }
                }
                let piece = slice_vec(s, start, s.len());
                assert(piece@ =~= rest);
                proof {
                    done = done.push(rest);
                }
                out.push(piece);
                assert(split_char(s@, c) =~= done);
                return out;
            },
            Some(k) => {
                proof {
                    lemma_find_pat(s@, seq![c], start as int);
                    lemma_find_pat(rest, seq![c], 0);
                    let j = k - start;
                    assert(rest.subrange(j, j + 1) =~= s@.subrange(k as int, k + 1));
                    if find_pat(rest, seq![c], 0) == -1 {
                        assert(occurs_at(rest, seq![c], j));
                    } else {
                        let f = find_pat(rest, seq![c], 0);
                        assert(rest.subrange(f, f + 1) =~= s@.subrange(start + f, start + f + 1));
                        assert(occurs_at(s@, seq![c], start + f));
                        if f < j {
                        } else if f > j {
                            assert(occurs_at(rest, seq![c], j));
                        }
                    }
                    assert(find_pat(rest, seq![c], 0) == j);
                    assert(rest.skip(j + 1) =~= s@.skip(k + 1));
                }
                let piece = slice_vec(s, start, k);
                assert(piece@ =~= rest.take(k - start));
                proof {
                    done = done.push(rest.take(k - start));
                }
                out.push(piece);
                assert(split_char(s@, c) =~= done + split_char(s@.skip(k + 1), c));
                start = k + 1;
            },
        }
    }
}


/// Append all of `s` to `out`.
pub fn extend_vec(out: &mut Vec<char>, s: &[char])
    ensures
        final(out)@ == old(out)@ + s@,
{
    let ghost o = out@;
    let mut i: usize = 0;
    while i < s.len()
        invariant
            i <= s@.len(),
            out@ == o + s@.subrange(0, i as int),
        decreases s.len() - i,
    {
        out.push(s[i]);
        i = i + 1;
        assert(out@ =~= o + s@.subrange(0, i as int));
    }
    assert(s@.subrange(0, s@.len() as int) =~= s@);
}

/// `a` followed by `b`, as a new `String`.
pub fn concat_str(a: &str, b: &str) -> (r: String)
    ensures
        r@ == a@ + b@,
{
    let mut v = chars_of(a);
    let w = chars_of(b);
    extend_vec(&mut v, &w);
    string_of(&v)
}

/// Owned copy of a string slice.
pub fn owned(s: &str) -> (r: String)
    ensures
        r@ == s@,
{
    s.to_string()
}

/// Copy of an optional string.
pub fn copy_opt(s: &Option<String>) -> (r: Option<String>)
    ensures
        r == *s,
{
    match s {
        Some(v) => Some(v.clone()),
        None => None,
    }
}

/// Copy of a vector of strings.
pub fn copy_strings(v: &Vec<String>) -> (r: Vec<String>)
    ensures
        r@ == v@,
{
    let mut r: Vec<String> = Vec::new();
    let mut i: usize = 0;
    while i < v.len()
        invariant
            i <= v@.len(),
            r@ == v@.subrange(0, i as int),
        decreases v.len() - i,
    {
        r.push(v[i].clone());
        i = i + 1;
        assert(r@ =~= v@.subrange(0, i as int));
    }
    assert(v@.subrange(0, v@.len() as int) =~= v@);
    r
}

/// `s` is empty after trimming.
pub fn is_blank(s: &str) -> (r: bool)
    ensures
        r == (trim(s@).len() == 0),
{
    let v = chars_of(s);
    let t = trim_vec(&v);
    t.len() == 0
}

/// Equality of string contents.
pub fn str_eq(a: &str, b: &str) -> (r: bool)
    ensures
        r == (a@ == b@),
{
    let va = chars_of(a);
    let vb = chars_of(b);
    vec_eq(&va, &vb)
}

/// `str::starts_with` on strings.
pub fn str_starts_with(s: &str, p: &str) -> (r: bool)
    ensures
        r == has_prefix(s@, p@),
{
    let vs = chars_of(s);
    let vp = chars_of(p);
    starts_with_vec(&vs, &vp)
}

/// `str::contains` on strings.
pub fn str_contains(s: &str, p: &str) -> (r: bool)
    ensures
        r == contains(s@, p@),
{
    let vs = chars_of(s);
    let vp = chars_of(p);
    contains_vec(&vs, &vp)
}


/// Decimal digits of `n` (no sign, no leading zeros; `0` is `"0"`).
pub open spec fn decimal(n: nat) -> Seq<char>
    decreases n,
{
    if n < 10 {
        seq![digit_char(n)]
    } else {
        decimal(n / 10).push(digit_char(n % 10))
    }
}

pub open spec fn digit_char(d: nat) -> char {
    if d == 0 { '0' } else if d == 1 { '1' } else if d == 2 { '2' } else if d == 3 { '3' }
    else if d == 4 { '4' } else if d == 5 { '5' } else if d == 6 { '6' } else if d == 7 { '7' }
    else if d == 8 { '8' } else { '9' }
}

fn digit_char_exec(d: u64) -> (c: char)
    requires
        d < 10,
    ensures
        c == digit_char(d as nat),
{
    if d == 0 { '0' } else if d == 1 { '1' } else if d == 2 { '2' } else if d == 3 { '3' }
    else if d == 4 { '4' } else if d == 5 { '5' } else if d == 6 { '6' } else if d == 7 { '7' }
    else if d == 8 { '8' } else { '9' }
}

/// The decimal rendering of `n`, as `n.to_string()` produces it.
pub fn decimal_vec(n: u64) -> (r: Vec<char>)
    ensures
        r@ == decimal(n as nat),
    decreases n,
{
    if n < 10 {
        let mut r: Vec<char> = Vec::new();
        r.push(digit_char_exec(n));
        r
    } else {
        let mut r = decimal_vec(n / 10);
        r.push(digit_char_exec(n % 10));
        r
    }
}

/// `n.to_string()`.
pub fn decimal_string(n: u64) -> (r: String)
    ensures
        r@ == decimal(n as nat),
{
    string_of(&decimal_vec(n))
}


/// One line as `str::lines` yields it: a trailing `'\r'` of a line that was
/// ended by `'\n'` is dropped.
pub open spec fn strip_cr(p: Seq<char>) -> Seq<char> {
    if p.len() > 0 && p.last() == '\r' { p.drop_last() } else { p }
}

/// The first `n` pieces, each with one trailing `'\r'` removed.
pub open spec fn strip_cr_all(ps: Seq<Seq<char>>, n: int) -> Seq<Seq<char>>
    decreases n,
{
    if n <= 0 { Seq::empty() } else { strip_cr_all(ps, n - 1).push(strip_cr(ps[n - 1])) }
}

/// `str::lines`: pieces between `'\n'`; lines ended by `"\r\n"` lose the
/// `'\r'`; a final empty piece (after a final newline, or of an empty
/// string) is not a line.
pub open spec fn lines(s: Seq<char>) -> Seq<Seq<char>> {
    let ps = split_char(s, '\n');
    let n = ps.len() as int;
    if n > 0 && ps[n - 1].len() == 0 {
        strip_cr_all(ps, n - 1)
    } else {
        strip_cr_all(ps, n - 1).push(ps[n - 1])
    }
}

pub proof fn lemma_strip_cr_all(ps: Seq<Seq<char>>, n: int)
    requires
        0 <= n <= ps.len(),
    ensures
        strip_cr_all(ps, n).len() == n,
        forall|k: int| 0 <= k < n ==> #[trigger] strip_cr_all(ps, n)[k] == strip_cr(ps[k]),
    decreases n,
{
    if n > 0 {
        lemma_strip_cr_all(ps, n - 1);
        assert forall|k: int| 0 <= k < n implies #[trigger] strip_cr_all(ps, n)[k] == strip_cr(ps[k]) by {
            if k < n - 1 {
                assert(strip_cr_all(ps, n)[k] == strip_cr_all(ps, n - 1)[k]);
            }
        }
    }
}

pub proof fn lemma_split_char_nonempty(s: Seq<char>, c: char)
    ensures
        split_char(s, c).len() > 0,
    decreases s.len(),
{
    let k = find_pat(s, seq![c], 0);
    if k < 0 || k >= s.len() {
    } else {
        lemma_split_char_nonempty(s.skip(k + 1), c);
    }
}

/// Exec `lines`.
pub fn lines_vec(s: &[char]) -> (r: Vec<Vec<char>>)
    ensures
        r@.len() == lines(s@).len(),
        forall|i: int| 0 <= i < r@.len() ==> #[trigger] r@[i]@ == lines(s@)[i],
{
    let ps = split_char_vec(s, '\n');
    let ghost sp = split_char(s@, '\n');
    proof { lemma_split_char_nonempty(s@, '\n'); }
    let n = ps.len();
    let mut out: Vec<Vec<char>> = Vec::new();
    let mut i: usize = 0;
    while i + 1 < n
        invariant
            n == ps@.len() == sp.len(),
            n > 0,
            i + 1 <= n,
            forall|k: int| 0 <= k < ps@.len() ==> #[trigger] ps@[k]@ == sp[k],
            out@.len() == i,
            forall|k: int| 0 <= k < i ==> #[trigger] out@[k]@ == strip_cr(sp[k]),
        decreases n - i,
    {
        let p = &ps[i];
        assert(p@ == sp[i as int]);
        let piece = if p.len() > 0 && p[p.len() - 1] == '\r' {
            slice_vec(p, 0, p.len() - 1)
        } else {
            slice_vec(p, 0, p.len())
        };
        assert(piece@ =~= strip_cr(sp[i as int]));
        let ghost prev = out@;
        out.push(piece);
        proof {
            assert forall|k: int| 0 <= k < i + 1 implies #[trigger] out@[k]@ == strip_cr(sp[k]) by {
                if k < i {
                    assert(out@[k] == prev[k]);
                }
            }
        }
        i = i + 1;
    }
    proof { lemma_strip_cr_all(sp, n - 1); }
    let last = &ps[n - 1];
    assert(last@ == sp[n - 1]);
    if last.len() > 0 {
        let ghost prev = out@;
        out.push(slice_vec(last, 0, last.len()));
        proof {
            assert forall|k: int| 0 <= k < out@.len() implies #[trigger] out@[k]@ == lines(s@)[k] by {
                if k < n - 1 {
                    assert(out@[k] == prev[k]);
                } else {
                    assert(out@[k]@ =~= sp[n - 1]);
                }
            }
        }
    }
    out
}

/// Pieces joined with `sep` between consecutive ones (`[T]::join`).
pub open spec fn join(ps: Seq<Seq<char>>, sep: Seq<char>) -> Seq<char>
    decreases ps.len(),
{
    if ps.len() == 0 {
        Seq::empty()
    } else if ps.len() == 1 {
        ps[0]
    } else {
        join(ps.drop_last(), sep) + sep + ps.last()
    }
}

/// Exec `join` over `ps[from..]`.
pub fn join_from(ps: &Vec<Vec<char>>, from: usize, sep: &[char]) -> (r: Vec<char>)
    requires
        from <= ps@.len(),
    ensures
        r@ == join(ps@.subrange(from as int, ps@.len() as int).map_values(|v: Vec<char>| v@), sep@),
{
    let ghost vs = ps@.subrange(from as int, ps@.len() as int).map_values(|v: Vec<char>| v@);
    let mut out: Vec<char> = Vec::new();
    let mut i: usize = from;
    while i < ps.len()
        invariant
            from <= i <= ps@.len(),
            vs == ps@.subrange(from as int, ps@.len() as int).map_values(|v: Vec<char>| v@),
            out@ == join(vs.subrange(0, i - from), sep@),
        decreases ps.len() - i,
    {
        let ghost before = vs.subrange(0, i - from);
        if i > from {
            extend_vec(&mut out, sep);
        }
        extend_vec(&mut out, &ps[i]);
        proof {
            let after = vs.subrange(0, i + 1 - from);
            assert(after.drop_last() =~= before);
            assert(after.last() == ps@[i as int]@);
            if i == from {
                assert(before.len() == 0);
                assert(out@ =~= after[0]);
            }
        }
        i = i + 1;
    }
    assert(vs.subrange(0, ps@.len() - from) =~= vs);
    out
}


/// Equality of two optional strings by contents.
pub fn opt_str_eq(a: &Option<String>, b: &Option<String>) -> (r: bool)
    ensures
        r == (crate::app_config::opt_view(*a) == crate::app_config::opt_view(*b)),
{
    match (a, b) {
        (Some(x), Some(y)) => str_eq(x.as_str(), y.as_str()),
        (None, None) => true,
        _ => false,
    }
}

/// Equality of two string lists by contents.
pub fn strings_eq(a: &Vec<String>, b: &Vec<String>) -> (r: bool)
    ensures
        r == (crate::order::views(a@) == crate::order::views(b@)),
{
    if a.len() != b.len() {
        assert(crate::order::views(a@).len() != crate::order::views(b@).len());
        return false;
    }
    let mut i: usize = 0;
    while i < a.len()
        invariant
            a@.len() == b@.len(),
            i <= a@.len(),
            forall|k: int| 0 <= k < i ==> #[trigger] crate::order::views(a@)[k] == crate::order::views(b@)[k],
        decreases a.len() - i,
    {
        if !str_eq(a[i].as_str(), b[i].as_str()) {
            assert(crate::order::views(a@)[i as int] != crate::order::views(b@)[i as int]);
            return false;
        }
        i = i + 1;
    }
    assert(crate::order::views(a@) =~= crate::order::views(b@));
    true
}


/// Copy of a list of string pairs.
pub fn copy_pairs(v: &Vec<(String, String)>) -> (r: Vec<(String, String)>)
    ensures
        r@ == v@,
{
    let mut r: Vec<(String, String)> = Vec::new();
    let mut i: usize = 0;
    while i < v.len()
        invariant
            i <= v@.len(),
            r@ == v@.take(i as int),
        decreases v.len() - i,
    {
        r.push((v[i].0.clone(), v[i].1.clone()));
        assert(r@ =~= v@.take(i + 1));
        i = i + 1;
    }
    assert(v@.take(v@.len() as int) =~= v@);
    r
}

} // verus!
