//! Anchor resolution is a filter followed by an extremum selection. These
//! spec functions give each lookup an exact meaning, including its tie-break:
//! `first_min_where` picks the earliest record with the least key, and
//! `last_max_where` the latest record with the greatest key.

use vstd::prelude::*;

verus! {

/// Some element of `s` satisfies `p`.
pub open spec fn exists_where<T>(s: Seq<T>, p: spec_fn(T) -> bool) -> bool {
    exists|i: int| 0 <= i < s.len() && p(#[trigger] s[i])
}

/// Index of the first element satisfying `p`, or `-1`.
pub open spec fn first_where<T>(s: Seq<T>, p: spec_fn(T) -> bool) -> int
    decreases s.len(),
{
    if s.len() == 0 {
        -1
    } else {
        let r = first_where(s.drop_last(), p);
        if r >= 0 {
            r
        } else if p(s.last()) {
            s.len() - 1
        } else {
            -1
        }
    }
}

/// Index of the earliest element with the least `key` among those satisfying
/// `p`, or `-1` when none does.
pub open spec fn first_min_where<T>(s: Seq<T>, p: spec_fn(T) -> bool, key: spec_fn(T) -> int) -> int
    decreases s.len(),
{
    if s.len() == 0 {
        -1
    } else {
        let r = first_min_where(s.drop_last(), p, key);
        let n = s.len() - 1;
        if !p(s[n]) {
            r
        } else if r < 0 {
            n
        } else if key(s[n]) < key(s[r]) {
            n
        } else {
            r
        }
    }
}

/// Index of the latest element with the greatest `key` among those satisfying
/// `p`, or `-1` when none does.
pub open spec fn last_max_where<T>(s: Seq<T>, p: spec_fn(T) -> bool, key: spec_fn(T) -> int) -> int
    decreases s.len(),
{
    if s.len() == 0 {
        -1
    } else {
        let r = last_max_where(s.drop_last(), p, key);
        let n = s.len() - 1;
        if !p(s[n]) {
            r
        } else if r < 0 {
            n
        } else if key(s[n]) >= key(s[r]) {
            n
        } else {
            r
        }
    }
}

pub proof fn lemma_first_where_props<T>(s: Seq<T>, p: spec_fn(T) -> bool)
    ensures
        -1 <= first_where(s, p),
        first_where(s, p) == -1 <==> !exists_where(s, p),
        first_where(s, p) >= 0 ==> 0 <= first_where(s, p) < s.len() && p(s[first_where(s, p)])
            && forall|k: int| 0 <= k < first_where(s, p) ==> !p(#[trigger] s[k]),
    decreases s.len(),
{
    if s.len() > 0 {
        lemma_first_where_props(s.drop_last(), p);
        assert(forall|k: int| 0 <= k < s.len() - 1 ==> s.drop_last()[k] == #[trigger] s[k]);
        if first_where(s, p) == -1 {
            assert(!p(s[s.len() - 1]));
        }
    }
}

pub proof fn lemma_exists_where_push<T>(s: Seq<T>, x: T, p: spec_fn(T) -> bool)
    ensures
        exists_where(s.push(x), p) <==> (exists_where(s, p) || p(x)),
{
    let s2 = s.push(x);
    assert(s2[s.len() as int] == x);
    assert(forall|i: int| 0 <= i < s.len() ==> s2[i] == #[trigger] s[i]);
    if exists_where(s2, p) {
        let i = choose|i: int| 0 <= i < s2.len() && p(#[trigger] s2[i]);
        if i < s.len() {
            assert(p(s[i]));
        }
    }
    if exists_where(s, p) {
        let i = choose|i: int| 0 <= i < s.len() && p(#[trigger] s[i]);
        assert(p(s2[i]));
    }
    if p(x) {
        assert(p(s2[s.len() as int]));
    }
}

/// A match survives extending the sequence past a preserved prefix.
pub proof fn lemma_exists_where_extend<T>(s: Seq<T>, s2: Seq<T>, p: spec_fn(T) -> bool)
    requires
        s.len() <= s2.len(),
        s2.take(s.len() as int) == s,
        exists_where(s, p),
    ensures
        exists_where(s2, p),
{
    let i = choose|i: int| 0 <= i < s.len() && p(#[trigger] s[i]);
    assert(s2.take(s.len() as int)[i] == s2[i]);
    assert(p(s2[i]));
}

/// Appending elements that do not match leaves the first-minimum unchanged.
pub proof fn lemma_first_min_append_nonmatch<T>(
    s: Seq<T>,
    s2: Seq<T>,
    p: spec_fn(T) -> bool,
    key: spec_fn(T) -> int,
)
    requires
        s.len() <= s2.len(),
        s2.take(s.len() as int) == s,
        forall|k: int| s.len() <= k < s2.len() ==> !p(#[trigger] s2[k]),
    ensures
        first_min_where(s2, p, key) == first_min_where(s, p, key),
    decreases s2.len() - s.len(),
{
    if s2.len() > s.len() {
        let sdl = s2.drop_last();
        assert(!p(s2[s2.len() - 1]));
        assert(forall|k: int| 0 <= k < sdl.len() ==> #[trigger] sdl[k] == s2[k]);
        assert(sdl.take(s.len() as int) =~= s);
        lemma_first_min_append_nonmatch(s, sdl, p, key);
    } else {
        assert(s2 =~= s);
    }
}

/// Prefix extension is transitive.
pub proof fn lemma_prefix_trans<T>(a: Seq<T>, b: Seq<T>, c: Seq<T>)
    requires
        a.len() <= b.len() <= c.len(),
        b.take(a.len() as int) == a,
        c.take(b.len() as int) == b,
    ensures
        c.take(a.len() as int) == a,
{
    assert forall|i: int| 0 <= i < a.len() implies c.take(a.len() as int)[i] == #[trigger] a[i] by {
        assert(c.take(a.len() as int)[i] == c[i]);
        assert(c.take(b.len() as int)[i] == c[i]);
        assert(b.take(a.len() as int)[i] == b[i]);
    }
    assert(c.take(a.len() as int) =~= a);
}

pub proof fn lemma_exists_where_insert<T>(s: Seq<T>, at: int, x: T, p: spec_fn(T) -> bool)
    requires
        0 <= at <= s.len(),
    ensures
        exists_where(s.insert(at, x), p) <==> (exists_where(s, p) || p(x)),
{
    let s2 = s.insert(at, x);
    assert(s2[at] == x);
    assert(forall|i: int| 0 <= i < at ==> s2[i] == #[trigger] s[i]);
    assert(forall|i: int| at <= i < s.len() ==> s2[i + 1] == #[trigger] s[i]);
    if exists_where(s2, p) {
        let i = choose|i: int| 0 <= i < s2.len() && p(#[trigger] s2[i]);
        if i < at {
            assert(p(s[i]));
        } else if i > at {
            assert(p(s[i - 1]));
        }
    }
    if exists_where(s, p) {
        let i = choose|i: int| 0 <= i < s.len() && p(#[trigger] s[i]);
        if i < at {
            assert(p(s2[i]));
        } else {
            assert(p(s2[i + 1]));
        }
    }
    if p(x) {
        assert(p(s2[at]));
    }
}

/// Once a first match is found in a prefix, extending the sequence does not
/// change it.
pub proof fn lemma_first_where_prefix<T>(s: Seq<T>, p: spec_fn(T) -> bool, j: int)
    requires
        0 <= j <= s.len(),
        first_where(s.take(j), p) >= 0,
    ensures
        first_where(s, p) == first_where(s.take(j), p),
    decreases s.len() - j,
{
    if j < s.len() {
        assert(s.take(j + 1).drop_last() =~= s.take(j));
        assert(first_where(s.take(j + 1), p) == first_where(s.take(j), p));
        lemma_first_where_prefix(s, p, j + 1);
    } else {
        assert(s.take(j) =~= s);
    }
}

pub proof fn lemma_first_min_props<T>(s: Seq<T>, p: spec_fn(T) -> bool, key: spec_fn(T) -> int)
    ensures
        -1 <= first_min_where(s, p, key),
        first_min_where(s, p, key) == -1 <==> !exists_where(s, p),
        first_min_where(s, p, key) >= 0 ==> {
            let r = first_min_where(s, p, key);
            &&& 0 <= r < s.len()
            &&& p(s[r])
            &&& forall|k: int| 0 <= k < s.len() && p(#[trigger] s[k]) ==> key(s[r]) <= key(s[k])
            &&& forall|k: int|
                0 <= k < r && p(#[trigger] s[k]) ==> key(s[r]) < key(s[k])
        },
    decreases s.len(),
{
    if s.len() > 0 {
        let sdl = s.drop_last();
        let rp = first_min_where(sdl, p, key);
        let n = s.len() - 1;
        let r = first_min_where(s, p, key);
        lemma_first_min_props(sdl, p, key);
        assert(forall|k: int| 0 <= k < s.len() - 1 ==> sdl[k] == #[trigger] s[k]);
        if rp == -1 {
            assert forall|k: int| 0 <= k < n implies !p(#[trigger] s[k]) by {
                if p(s[k]) {
                    assert(p(sdl[k]));
                    assert(exists_where(sdl, p));
                }
            }
        }
        if p(s[n]) {
            assert(exists_where(s, p));
        }
        if r >= 0 {
            assert(p(s[r]));
            assert forall|k: int| 0 <= k < s.len() && p(#[trigger] s[k]) implies key(s[r]) <= key(
                s[k],
            ) by {
                if k < n {
                    assert(p(sdl[k]));
                    assert(exists_where(sdl, p));
                    assert(rp >= 0);
                    assert(key(sdl[rp]) <= key(sdl[k]));
                }
            }
            assert forall|k: int| 0 <= k < r && p(#[trigger] s[k]) implies key(s[r]) < key(
                s[k],
            ) by {
                assert(p(sdl[k]));
                assert(exists_where(sdl, p));
                assert(rp >= 0);
                if r == rp {
                    assert(key(sdl[rp]) < key(sdl[k]));
                } else {
                    assert(key(sdl[rp]) <= key(sdl[k]));
                }
            }
        }
    }
}

pub proof fn lemma_last_max_props<T>(s: Seq<T>, p: spec_fn(T) -> bool, key: spec_fn(T) -> int)
    ensures
        -1 <= last_max_where(s, p, key),
        last_max_where(s, p, key) == -1 <==> !exists_where(s, p),
        last_max_where(s, p, key) >= 0 ==> {
            let r = last_max_where(s, p, key);
            &&& 0 <= r < s.len()
            &&& p(s[r])
            &&& forall|k: int| 0 <= k < s.len() && p(#[trigger] s[k]) ==> key(s[k]) <= key(s[r])
            &&& forall|k: int|
                r < k < s.len() && p(#[trigger] s[k]) ==> key(s[k]) < key(s[r])
        },
    decreases s.len(),
{
    if s.len() > 0 {
        let sdl = s.drop_last();
        let rp = last_max_where(sdl, p, key);
        let n = s.len() - 1;
        let r = last_max_where(s, p, key);
        lemma_last_max_props(sdl, p, key);
        assert(forall|k: int| 0 <= k < s.len() - 1 ==> sdl[k] == #[trigger] s[k]);
        if rp == -1 {
            assert forall|k: int| 0 <= k < n implies !p(#[trigger] s[k]) by {
                if p(s[k]) {
                    assert(p(sdl[k]));
                    assert(exists_where(sdl, p));
                }
            }
        }
        if p(s[n]) {
            assert(exists_where(s, p));
        }
        if r >= 0 {
            assert(p(s[r]));
            assert forall|k: int| 0 <= k < s.len() && p(#[trigger] s[k]) implies key(s[k]) <= key(
                s[r],
            ) by {
                if k < n {
                    assert(p(sdl[k]));
                    assert(exists_where(sdl, p));
                    assert(rp >= 0);
                    assert(key(sdl[k]) <= key(sdl[rp]));
                }
            }
            assert forall|k: int| r < k < s.len() && p(#[trigger] s[k]) implies key(s[k]) < key(
                s[r],
            ) by {
                if k < n {
                    assert(p(sdl[k]));
                    assert(exists_where(sdl, p));
                    assert(rp >= 0);
                    if r == rp {
                        assert(key(sdl[k]) < key(sdl[rp]));
                    }
                }
            }
        }
    }
}

} // verus!
