//! Lexicographic order on character sequences (the order of `String`'s
//! `Ord`, which compares UTF-8 bytes and therefore code points) and sorted,
//! duplicate-free collections of strings.

use vstd::prelude::*;

verus! {

/// `a < b` in the order of `String::cmp`.
pub open spec fn seq_lt(a: Seq<char>, b: Seq<char>) -> bool
    decreases a.len(),
{
    if a.len() == 0 {
        b.len() > 0
    } else if b.len() == 0 {
        false
    } else if (a[0] as int) < (b[0] as int) {
        true
    } else if a[0] == b[0] {
        seq_lt(a.drop_first(), b.drop_first())
    } else {
        false
    }
}

pub proof fn lemma_lt_irreflexive(a: Seq<char>)
    ensures
        !seq_lt(a, a),
    decreases a.len(),
{
    if a.len() > 0 {
        lemma_lt_irreflexive(a.drop_first());
    }
}

pub proof fn lemma_lt_asymmetric(a: Seq<char>, b: Seq<char>)
    requires
        seq_lt(a, b),
    ensures
        !seq_lt(b, a),
    decreases a.len(),
{
    if a.len() > 0 && b.len() > 0 && a[0] == b[0] {
        lemma_lt_asymmetric(a.drop_first(), b.drop_first());
    }
}

pub proof fn lemma_lt_transitive(a: Seq<char>, b: Seq<char>, c: Seq<char>)
    requires
        seq_lt(a, b),
        seq_lt(b, c),
    ensures
        seq_lt(a, c),
    decreases a.len(),
{
    if a.len() > 0 && b.len() > 0 && c.len() > 0 && a[0] == b[0] && b[0] == c[0] {
        lemma_lt_transitive(a.drop_first(), b.drop_first(), c.drop_first());
    }
}

pub proof fn lemma_lt_total(a: Seq<char>, b: Seq<char>)
    requires
        a != b,
    ensures
        seq_lt(a, b) || seq_lt(b, a),
    decreases a.len(),
{
    if a.len() > 0 && b.len() > 0 {
        if a[0] == b[0] {
            if a.drop_first() == b.drop_first() {
                assert(a =~= seq![a[0]] + a.drop_first());
                assert(b =~= seq![b[0]] + b.drop_first());
            }
            lemma_lt_total(a.drop_first(), b.drop_first());
        } else {
            assert((a[0] as int) != (b[0] as int));
        }
    } else if a.len() == 0 && b.len() == 0 {
        assert(a =~= b);
    }
}

/// Exec `seq_lt`.
pub fn lt_vec(a: &[char], b: &[char]) -> (r: bool)
    ensures
        r == seq_lt(a@, b@),
{
    let mut i: usize = 0;
    assert(a@.skip(0) =~= a@);
    assert(b@.skip(0) =~= b@);
    while i < a.len() && i < b.len() && a[i] == b[i]
        invariant
            i <= a@.len(),
            i <= b@.len(),
            seq_lt(a@, b@) == seq_lt(a@.skip(i as int), b@.skip(i as int)),
        decreases a.len() - i,
    {
        proof {
            assert(a@.skip(i as int).drop_first() =~= a@.skip(i + 1));
            assert(b@.skip(i as int).drop_first() =~= b@.skip(i + 1));
        }
        i = i + 1;
    }
    if i == a.len() {
        i < b.len()
    } else if i == b.len() {
        false
    } else {
        a[i] < b[i]
    }
}

/// Exec `seq_lt` on strings.
pub fn str_lt(a: &str, b: &str) -> (r: bool)
    ensures
        r == seq_lt(a@, b@),
{
    let va = crate::text::chars_of(a);
    let vb = crate::text::chars_of(b);
    lt_vec(&va, &vb)
}

/// The views of a sequence of strings.
pub open spec fn views(v: Seq<String>) -> Seq<Seq<char>> {
    v.map_values(|s: String| s@)
}

/// Strictly increasing, hence also free of duplicates.
pub open spec fn sorted_strict(s: Seq<Seq<char>>) -> bool {
    forall|i: int, j: int| 0 <= i < j < s.len() ==> seq_lt(#[trigger] s[i], #[trigger] s[j])
}

/// Insert `x` into a strictly sorted vector unless an equal string is
/// already there.
pub fn insert_sorted_unique(v: &mut Vec<String>, x: String)
    requires
        sorted_strict(views(old(v)@)),
    ensures
        sorted_strict(views(final(v)@)),
        views(final(v)@).to_set() == views(old(v)@).to_set().insert(x@),
{
    let ghost old_v = views(v@);
    let mut i: usize = 0;
    while i < v.len() && str_lt(v[i].as_str(), x.as_str())
        invariant
            i <= v@.len(),
            views(v@) == old_v,
            forall|k: int| 0 <= k < i ==> seq_lt(#[trigger] old_v[k], x@),
        decreases v.len() - i,
    {
        i = i + 1;
    }
    if i < v.len() && v[i] == x {
        assert(views(v@).to_set() =~= old_v.to_set().insert(x@)) by {
            assert(old_v[i as int] == x@);
            assert(old_v.contains(x@));
        }
        return;
    }
    let ghost xv = x@;
    v.insert(i, x);
    proof {
        let nv = views(v@);
        assert(nv =~= old_v.insert(i as int, xv));
        if i < old_v.len() {
            assert(!seq_lt(old_v[i as int], xv));
            assert(old_v[i as int] != xv);
            lemma_lt_total(old_v[i as int], xv);
        }
        assert forall|a: int, b: int| 0 <= a < b < nv.len() implies seq_lt(#[trigger] nv[a], #[trigger] nv[b]) by {
            if b < i {
            } else if b == i {
            } else if a < i {
                lemma_lt_transitive(old_v[a], xv, old_v[i as int]);
                if b - 1 > i {
                    lemma_lt_transitive(old_v[a], old_v[i as int], old_v[b - 1]);
                }
            } else if a == i {
                if b - 1 > i {
                    lemma_lt_transitive(xv, old_v[i as int], old_v[b - 1]);
                }
            } else {
            }
        }
        assert(nv.to_set() =~= old_v.to_set().insert(xv)) by {
            assert forall|e: Seq<char>| nv.to_set().contains(e) <==> old_v.to_set().insert(xv).contains(e) by {
                if nv.contains(e) {
                    let k = choose|k: int| 0 <= k < nv.len() && nv[k] == e;
                    if k < i {
                        assert(old_v[k] == e);
                    } else if k > i {
                        assert(old_v[k - 1] == e);
                    }
                }
                if old_v.contains(e) {
                    let k = choose|k: int| 0 <= k < old_v.len() && old_v[k] == e;
                    if k < i {
                        assert(nv[k] == e);
                    } else {
                        assert(nv[k + 1] == e);
                    }
                }
                if e == xv {
                    assert(nv[i as int] == e);
                }
            }
        }
    }
}


/// Two strictly sorted sequences holding the same elements are equal: the
/// sorted, duplicate-free form of a finite set of strings is unique.
pub proof fn lemma_sorted_unique(a: Seq<Seq<char>>, b: Seq<Seq<char>>)
    requires
        sorted_strict(a),
        sorted_strict(b),
        a.to_set() == b.to_set(),
    ensures
        a == b,
    decreases a.len(),
{
    if a.len() == 0 {
        if b.len() > 0 {
            assert(b.to_set().contains(b[0]));
            assert(!a.to_set().contains(b[0]));
        }
        assert(a =~= b);
    } else {
        assert(a.to_set().contains(a[0]));
        assert(b.to_set().contains(a[0]));
        let j = choose|j: int| 0 <= j < b.len() && b[j] == a[0];
        assert(b.to_set().contains(b[0]));
        assert(a.to_set().contains(b[0]));
        let i = choose|i: int| 0 <= i < a.len() && a[i] == b[0];
        if j > 0 {
            assert(seq_lt(b[0], b[j]));
            if i > 0 {
                assert(seq_lt(a[0], a[i]));
                lemma_lt_transitive(b[0], a[0], b[0]);
            }
            lemma_lt_irreflexive(b[0]);
        }
        assert(a[0] == b[0]);
        let a1 = a.drop_first();
        let b1 = b.drop_first();
        assert(sorted_strict(a1)) by {
            assert forall|x: int, y: int| 0 <= x < y < a1.len() implies seq_lt(#[trigger] a1[x], #[trigger] a1[y]) by {
                assert(a1[x] == a[x + 1] && a1[y] == a[y + 1]);
            }
        }
        assert(sorted_strict(b1)) by {
            assert forall|x: int, y: int| 0 <= x < y < b1.len() implies seq_lt(#[trigger] b1[x], #[trigger] b1[y]) by {
                assert(b1[x] == b[x + 1] && b1[y] == b[y + 1]);
            }
        }
        assert(a1.to_set() =~= b1.to_set()) by {
            assert forall|e: Seq<char>| a1.to_set().contains(e) implies b1.to_set().contains(e) by {
                let k = choose|k: int| 0 <= k < a1.len() && a1[k] == e;
                assert(seq_lt(a[0], a[k + 1]));
                assert(a[k + 1] != a[0]) by { lemma_lt_irreflexive(a[0]); }
                assert(a.to_set().contains(e));
                let m = choose|m: int| 0 <= m < b.len() && b[m] == e;
                assert(m != 0);
                assert(b1[m - 1] == e);
            }
            assert forall|e: Seq<char>| b1.to_set().contains(e) implies a1.to_set().contains(e) by {
                let k = choose|k: int| 0 <= k < b1.len() && b1[k] == e;
                assert(seq_lt(b[0], b[k + 1]));
                assert(b[k + 1] != b[0]) by { lemma_lt_irreflexive(b[0]); }
                assert(b.to_set().contains(e));
                let m = choose|m: int| 0 <= m < a.len() && a[m] == e;
                assert(m != 0);
                assert(a1[m - 1] == e);
            }
        }
        lemma_sorted_unique(a1, b1);
        assert(a =~= b) by {
            assert forall|k: int| 0 <= k < a.len() implies a[k] == b[k] by {
                if k > 0 {
                    assert(a[k] == a1[k - 1]);
                    assert(b[k] == b1[k - 1]);
                }
            }
        }
    }
}


/// Where `k` belongs in a strictly sorted key list: its index if present,
/// otherwise the index it would be inserted at.
pub fn locate(keys: &Vec<String>, k: &[char]) -> (r: (usize, bool))
    requires
        sorted_strict(views(keys@)),
    ensures
        r.0 <= keys@.len(),
        r.1 ==> r.0 < keys@.len() && views(keys@)[r.0 as int] == k@,
        !r.1 ==> (forall|j: int| 0 <= j < r.0 ==> seq_lt(#[trigger] views(keys@)[j], k@))
            && (forall|j: int| r.0 <= j < keys@.len() ==> seq_lt(k@, #[trigger] views(keys@)[j])),
{
    let ghost kv = views(keys@);
    let mut i: usize = 0;
    while i < keys.len()
        invariant
            i <= keys@.len(),
            kv == views(keys@),
            sorted_strict(kv),
            forall|j: int| 0 <= j < i ==> seq_lt(#[trigger] kv[j], k@),
        decreases keys.len() - i,
    {
        let cur = crate::text::chars_of(keys[i].as_str());
        assert(kv[i as int] == cur@);
        if lt_vec(&cur, k) {
            i = i + 1;
        } else if crate::text::vec_eq(&cur, k) {
            return (i, true);
        } else {
            proof {
                lemma_lt_total(cur@, k@);
                assert forall|j: int| i <= j < keys@.len() implies seq_lt(k@, #[trigger] kv[j]) by {
                    if j > i {
                        lemma_lt_transitive(k@, kv[i as int], kv[j]);
                    }
                }
            }
            return (i, false);
        }
    }
    (i, false)
}

/// Inserting an element at its sorted position keeps a list strictly
/// sorted and adds exactly that element.
pub proof fn lemma_insert_sorted(s: Seq<Seq<char>>, pos: int, x: Seq<char>)
    requires
        sorted_strict(s),
        0 <= pos <= s.len(),
        forall|j: int| 0 <= j < pos ==> seq_lt(#[trigger] s[j], x),
        forall|j: int| pos <= j < s.len() ==> seq_lt(x, #[trigger] s[j]),
    ensures
        sorted_strict(s.insert(pos, x)),
        s.insert(pos, x).to_set() == s.to_set().insert(x),
{
    let nv = s.insert(pos, x);
    assert forall|a: int, b: int| 0 <= a < b < nv.len() implies seq_lt(#[trigger] nv[a], #[trigger] nv[b]) by {
        if b < pos {
        } else if b == pos {
        } else if a < pos {
            lemma_lt_transitive(s[a], x, s[b - 1]);
        } else if a == pos {
        } else {
        }
    }
    assert(nv.to_set() =~= s.to_set().insert(x)) by {
        assert forall|e: Seq<char>| nv.to_set().contains(e) <==> s.to_set().insert(x).contains(e) by {
            if nv.contains(e) {
                let k = choose|k: int| 0 <= k < nv.len() && nv[k] == e;
                if k < pos {
                    assert(s[k] == e);
                } else if k > pos {
                    assert(s[k - 1] == e);
                }
            }
            if s.contains(e) {
                let k = choose|k: int| 0 <= k < s.len() && s[k] == e;
                if k < pos {
                    assert(nv[k] == e);
                } else {
                    assert(nv[k + 1] == e);
                }
            }
            if e == x {
                assert(nv[pos] == e);
            }
        }
    }
}

/// The strictly sorted sequence holding exactly the strings of `k`.
pub open spec fn sorted_of(k: Set<Seq<char>>) -> Seq<Seq<char>> {
    choose|ks: Seq<Seq<char>>| sorted_strict(ks) && ks.to_set() == k
}

/// A strictly sorted sequence is the sorted form of its set.
pub proof fn lemma_is_sorted_of(ks: Seq<Seq<char>>)
    requires
        sorted_strict(ks),
    ensures
        sorted_of(ks.to_set()) == ks,
{
    let k = ks.to_set();
    assert(sorted_strict(ks) && ks.to_set() == k);
    let c = sorted_of(k);
    lemma_sorted_unique(c, ks);
}


/// The position of `x` in a strictly sorted sequence that lacks it.
proof fn split_point(s: Seq<Seq<char>>, x: Seq<char>) -> (pos: int)
    requires
        sorted_strict(s),
        !s.contains(x),
    ensures
        0 <= pos <= s.len(),
        forall|j: int| 0 <= j < pos ==> seq_lt(#[trigger] s[j], x),
        forall|j: int| pos <= j < s.len() ==> seq_lt(x, #[trigger] s[j]),
    decreases s.len(),
{
    if s.len() == 0 {
        0
    } else {
        let init = s.drop_last();
        assert(!init.contains(x)) by {
            if init.contains(x) {
                let j = choose|j: int| 0 <= j < init.len() && init[j] == x;
                assert(s[j] == x);
            }
        }
        let p = split_point(init, x);
        assert(s.last() != x) by {
            assert(s[s.len() - 1] == s.last());
        }
        if seq_lt(s.last(), x) {
            assert forall|j: int| 0 <= j < s.len() implies seq_lt(#[trigger] s[j], x) by {
                if j < s.len() - 1 {
                    assert(seq_lt(s[j], s[s.len() - 1]));
                    lemma_lt_transitive(s[j], s.last(), x);
                }
            }
            s.len() as int
        } else {
            lemma_lt_total(s.last(), x);
            assert forall|j: int| p <= j < s.len() implies seq_lt(x, #[trigger] s[j]) by {
                if j < s.len() - 1 {
                    assert(s[j] == init[j]);
                }
            }
            assert forall|j: int| 0 <= j < p implies seq_lt(#[trigger] s[j], x) by {
                assert(s[j] == init[j]);
            }
            p
        }
    }
}

/// A strictly sorted sequence holding exactly the strings of `v`.
proof fn sorted_form(v: Seq<Seq<char>>) -> (ks: Seq<Seq<char>>)
    ensures
        sorted_strict(ks),
        ks.to_set() == v.to_set(),
    decreases v.len(),
{
    if v.len() == 0 {
        assert(v.to_set() =~= Seq::<Seq<char>>::empty().to_set());
        Seq::empty()
    } else {
        let init = v.drop_last();
        let x = v.last();
        let prev = sorted_form(init);
        assert(v =~= init.push(x));
        init.lemma_push_to_set_commute(x);
        if prev.contains(x) {
            assert(prev.to_set().contains(x));
            assert(v.to_set() =~= prev.to_set());
            prev
        } else {
            let pos = split_point(prev, x);
            lemma_insert_sorted(prev, pos, x);
            prev.insert(pos, x)
        }
    }
}

/// The sorted form of the strings of a sequence is strictly sorted and
/// holds exactly those strings.
pub proof fn lemma_sorted_of_seq(v: Seq<Seq<char>>)
    ensures
        sorted_strict(sorted_of(v.to_set())),
        sorted_of(v.to_set()).to_set() == v.to_set(),
{
    let ks = sorted_form(v);
    assert(sorted_strict(ks) && ks.to_set() == v.to_set());
}


/// A strictly sorted sequence has no duplicates, so it has as many
/// elements as its set.
pub proof fn lemma_sorted_len(s: Seq<Seq<char>>)
    requires
        sorted_strict(s),
    ensures
        s.no_duplicates(),
        s.to_set().len() == s.len(),
{
    assert forall|i: int, j: int| 0 <= i < s.len() && 0 <= j < s.len() && i != j implies s[i] != s[j] by {
        if i < j {
            assert(seq_lt(s[i], s[j]));
            if s[i] == s[j] {
                lemma_lt_irreflexive(s[i]);
            }
        } else {
            assert(seq_lt(s[j], s[i]));
            if s[i] == s[j] {
                lemma_lt_irreflexive(s[i]);
            }
        }
    }
    s.unique_seq_to_set();
}

} // verus!
