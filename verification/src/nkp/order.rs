//! Orderings used to lay out the matrix: lexicographic text order and a
//! stable selection of indices by sort key.

use vstd::prelude::*;

verus! {

/// Lexicographic order on text by code point, which is the byte order of
/// the UTF-8 encodings that `String`'s `Ord` compares.
pub open spec fn seq_less(a: Seq<char>, b: Seq<char>) -> bool
    decreases a.len(),
{
    if a.len() == 0 {
        b.len() > 0
    } else if b.len() == 0 {
        false
    } else if a[0] != b[0] {
        a[0] < b[0]
    } else {
        seq_less(a.drop_first(), b.drop_first())
    }
}

pub proof fn lemma_seq_less_irreflexive(a: Seq<char>)
    ensures
        !seq_less(a, a),
    decreases a.len(),
{
    if a.len() > 0 {
        lemma_seq_less_irreflexive(a.drop_first());
    }
}

pub proof fn lemma_seq_less_asymmetric(a: Seq<char>, b: Seq<char>)
    ensures
        !(seq_less(a, b) && seq_less(b, a)),
    decreases a.len(),
{
    if a.len() > 0 && b.len() > 0 && a[0] == b[0] {
        lemma_seq_less_asymmetric(a.drop_first(), b.drop_first());
    }
}

pub proof fn lemma_seq_less_transitive(a: Seq<char>, b: Seq<char>, c: Seq<char>)
    requires
        seq_less(a, b),
        seq_less(b, c),
    ensures
        seq_less(a, c),
    decreases a.len(),
{
    if a.len() > 0 && b.len() > 0 && c.len() > 0 && a[0] == b[0] && b[0] == c[0] {
        lemma_seq_less_transitive(a.drop_first(), b.drop_first(), c.drop_first());
    }
}

pub proof fn lemma_seq_less_total(a: Seq<char>, b: Seq<char>)
    requires
        a != b,
    ensures
        seq_less(a, b) || seq_less(b, a),
    decreases a.len(),
{
    if a.len() > 0 && b.len() > 0 && a[0] == b[0] {
        if a.drop_first() == b.drop_first() {
            assert(a =~= seq![a[0]] + a.drop_first());
            assert(b =~= seq![b[0]] + b.drop_first());
        }
        lemma_seq_less_total(a.drop_first(), b.drop_first());
    } else if a.len() == 0 && b.len() == 0 {
        assert(a =~= b);
    }
}

/// `seq_less` on characters.
pub fn chars_less(a: &[char], b: &[char]) -> (r: bool)
    ensures
        r == seq_less(a@, b@),
{
    let mut i: usize = 0;
    assert(a@.skip(0) =~= a@);
    assert(b@.skip(0) =~= b@);
    while i < a.len() && i < b.len()
        invariant
            i <= a@.len(),
            i <= b@.len(),
            seq_less(a@, b@) == seq_less(a@.skip(i as int), b@.skip(i as int)),
        decreases a@.len() - i,
    {
        if a[i] != b[i] {
            return a[i] < b[i];
        }
        assert(a@.skip(i as int).drop_first() =~= a@.skip(i + 1));
        assert(b@.skip(i as int).drop_first() =~= b@.skip(i + 1));
        i = i + 1;
    }
    i == a.len() && i < b.len()
}

/// A sort key: `first` keys come first, then larger `count`, then
/// smaller `major`, then smaller `minor`.
#[derive(Debug)]
pub struct SortKey {
    pub first: bool,
    pub count: usize,
    pub major: Vec<char>,
    pub minor: Vec<char>,
}

pub type KeyView = (bool, usize, Seq<char>, Seq<char>);

pub open spec fn key_view(k: SortKey) -> KeyView {
    (k.first, k.count, k.major@, k.minor@)
}

pub open spec fn key_views(keys: Seq<SortKey>) -> Seq<KeyView> {
    keys.map_values(|k: SortKey| key_view(k))
}

pub open spec fn key_less(a: KeyView, b: KeyView) -> bool {
    if a.0 != b.0 {
        a.0
    } else if a.1 != b.1 {
        a.1 > b.1
    } else if a.2 != b.2 {
        seq_less(a.2, b.2)
    } else {
        seq_less(a.3, b.3)
    }
}

/// Index `a` sorts before index `b`: a smaller key, or the same key and an
/// earlier position (a stable sort).
pub open spec fn precedes(keys: Seq<KeyView>, a: int, b: int) -> bool {
    key_less(keys[a], keys[b]) || (keys[a] == keys[b] && a < b)
}

/// `p` lists each index below `n` exactly once.
pub open spec fn is_perm(p: Seq<usize>, n: int) -> bool {
    &&& p.len() == n
    &&& forall|k: int| 0 <= k < p.len() ==> #[trigger] p[k] < n
    &&& p.no_duplicates()
}

/// `p` lists indices in `precedes` order.
pub open spec fn in_key_order(keys: Seq<KeyView>, p: Seq<usize>) -> bool {
    forall|k: int, l: int|
        0 <= k < l < p.len() ==> #[trigger] precedes(keys, p[k] as int, p[l] as int)
}

pub proof fn lemma_key_less_transitive(a: KeyView, b: KeyView, c: KeyView)
    requires
        key_less(a, b),
        key_less(b, c),
    ensures
        key_less(a, c),
{
    if a.0 == b.0 && b.0 == c.0 && a.1 == b.1 && b.1 == c.1 {
        if a.2 != b.2 && b.2 != c.2 {
            lemma_seq_less_transitive(a.2, b.2, c.2);
            if a.2 == c.2 {
                lemma_seq_less_asymmetric(a.2, b.2);
            }
        } else if a.2 == b.2 && b.2 == c.2 {
            lemma_seq_less_transitive(a.3, b.3, c.3);
        }
    }
}

pub proof fn lemma_key_less_total(a: KeyView, b: KeyView)
    requires
        a != b,
    ensures
        key_less(a, b) || key_less(b, a),
{
    if a.0 == b.0 && a.1 == b.1 {
        if a.2 != b.2 {
            lemma_seq_less_total(a.2, b.2);
        } else {
            lemma_seq_less_total(a.3, b.3);
        }
    }
}

pub proof fn lemma_precedes_transitive(keys: Seq<KeyView>, a: int, b: int, c: int)
    requires
        precedes(keys, a, b),
        precedes(keys, b, c),
    ensures
        precedes(keys, a, c),
{
    if key_less(keys[a], keys[b]) && key_less(keys[b], keys[c]) {
        lemma_key_less_transitive(keys[a], keys[b], keys[c]);
    }
}

pub proof fn lemma_precedes_total(keys: Seq<KeyView>, a: int, b: int)
    requires
        a != b,
    ensures
        precedes(keys, a, b) || precedes(keys, b, a),
{
    if keys[a] != keys[b] {
        lemma_key_less_total(keys[a], keys[b]);
    }
}

fn precedes_exec(keys: &Vec<SortKey>, a: usize, b: usize) -> (r: bool)
    requires
        a < keys@.len(),
        b < keys@.len(),
    ensures
        r == precedes(key_views(keys@), a as int, b as int),
{
    let ka = &keys[a];
    let kb = &keys[b];
    let ghost va = key_view(keys@[a as int]);
    let ghost vb = key_view(keys@[b as int]);
    assert(key_views(keys@)[a as int] == va);
    assert(key_views(keys@)[b as int] == vb);
    if ka.first != kb.first {
        return ka.first;
    }
    if ka.count != kb.count {
        return ka.count > kb.count;
    }
    let major_less = chars_less(ka.major.as_slice(), kb.major.as_slice());
    let major_more = chars_less(kb.major.as_slice(), ka.major.as_slice());
    if major_less || major_more {
        proof {
            if va.2 == vb.2 {
                lemma_seq_less_irreflexive(va.2);
            }
        }
        return major_less;
    }
    proof {
        if va.2 != vb.2 {
            lemma_seq_less_total(va.2, vb.2);
        }
    }
    let minor_less = chars_less(ka.minor.as_slice(), kb.minor.as_slice());
    let minor_more = chars_less(kb.minor.as_slice(), ka.minor.as_slice());
    if minor_less || minor_more {
        proof {
            if va.3 == vb.3 {
                lemma_seq_less_irreflexive(va.3);
            }
        }
        return minor_less;
    }
    proof {
        if va.3 != vb.3 {
            lemma_seq_less_total(va.3, vb.3);
        }
    }
    assert(va =~= vb);
    a < b
}

/// The indices `0..keys.len()` in key order, ties kept in index order: the
/// order a stable sort by key produces.
pub fn sorted_order(keys: &Vec<SortKey>) -> (p: Vec<usize>)
    ensures
        is_perm(p@, keys@.len() as int),
        in_key_order(key_views(keys@), p@),
{
    let n = keys.len();
    let ghost kv = key_views(keys@);
    let mut rest: Vec<usize> = Vec::new();
    let mut i: usize = 0;
    while i < n
        invariant
            i <= n,
            rest@.len() == i,
            forall|k: int| 0 <= k < i ==> #[trigger] rest@[k] == k,
        decreases n - i,
    {
        rest.push(i);
        i = i + 1;
    }
    let mut p: Vec<usize> = Vec::new();
    while rest.len() > 0
        invariant
            n == keys@.len(),
            kv == key_views(keys@),
            p@.len() + rest@.len() == n,
            forall|k: int| 0 <= k < p@.len() ==> #[trigger] p@[k] < n,
            forall|k: int| 0 <= k < rest@.len() ==> #[trigger] rest@[k] < n,
            p@.no_duplicates(),
            rest@.no_duplicates(),
            forall|k: int, r: int|
                0 <= k < p@.len() && 0 <= r < rest@.len() ==> p@[k] != rest@[r],
            in_key_order(kv, p@),
            forall|k: int, r: int|
                0 <= k < p@.len() && 0 <= r < rest@.len() ==> #[trigger] precedes(
                    kv,
                    p@[k] as int,
                    rest@[r] as int,
                ),
        decreases rest@.len(),
    {
        let mut best: usize = 0;
        let mut r: usize = 1;
        while r < rest.len()
            invariant
                n == keys@.len(),
                kv == key_views(keys@),
                forall|k: int| 0 <= k < rest@.len() ==> #[trigger] rest@[k] < n,
                rest@.no_duplicates(),
                best < r <= rest@.len(),
                forall|t: int|
                    0 <= t < r && t != best ==> #[trigger] precedes(
                        kv,
                        rest@[best as int] as int,
                        rest@[t] as int,
                    ),
            decreases rest@.len() - r,
        {
            if precedes_exec(keys, rest[r], rest[best]) {
                proof {
                    assert forall|t: int| 0 <= t < r + 1 && t != r implies #[trigger] precedes(
                        kv,
                        rest@[r as int] as int,
                        rest@[t] as int,
                    ) by {
                        if t != best {
                            lemma_precedes_transitive(
                                kv,
                                rest@[r as int] as int,
                                rest@[best as int] as int,
                                rest@[t] as int,
                            );
                        }
                    }
                }
                best = r;
            } else {
                proof {
                    lemma_precedes_total(kv, rest@[r as int] as int, rest@[best as int] as int);
                }
            }
            r = r + 1;
        }
        let ghost old_rest = rest@;
        let ghost old_p = p@;
        let chosen = rest.remove(best);
        p.push(chosen);
        proof {
            assert forall|k: int| 0 <= k < rest@.len() implies #[trigger] rest@[k] == (if k
                < best {
                old_rest[k]
            } else {
                old_rest[k + 1]
            }) by {}
            assert forall|k: int, l: int|
                0 <= k < l < p@.len() implies #[trigger] precedes(
                kv,
                p@[k] as int,
                p@[l] as int,
            ) by {
                if l == old_p.len() {
                    assert(precedes(kv, old_p[k] as int, old_rest[best as int] as int));
                }
            }
            assert forall|k: int, t: int|
                0 <= k < p@.len() && 0 <= t < rest@.len() implies #[trigger] precedes(
                kv,
                p@[k] as int,
                rest@[t] as int,
            ) by {
                let orig = if t < best {
                    t
                } else {
                    t + 1
                };
                assert(rest@[t] == old_rest[orig]);
                if k < old_p.len() {
                    assert(precedes(kv, old_p[k] as int, old_rest[orig] as int));
                } else {
                    assert(orig != best);
                }
            }
            assert forall|a: int, b: int|
                0 <= a < p@.len() && 0 <= b < p@.len() && a != b implies p@[a] != p@[b] by {
                if a < old_p.len() && b < old_p.len() {
                } else if a < old_p.len() {
                    assert(old_p[a] != old_rest[best as int]);
                } else {
                    assert(old_p[b] != old_rest[best as int]);
                }
            }
            assert forall|a: int, b: int|
                0 <= a < rest@.len() && 0 <= b < rest@.len() && a != b implies rest@[a]
                != rest@[b] by {
                let oa = if a < best {
                    a
                } else {
                    a + 1
                };
                let ob = if b < best {
                    b
                } else {
                    b + 1
                };
                assert(old_rest[oa] != old_rest[ob]);
            }
            assert forall|k: int, t: int|
                0 <= k < p@.len() && 0 <= t < rest@.len() implies p@[k] != rest@[t] by {
                let orig = if t < best {
                    t
                } else {
                    t + 1
                };
                assert(rest@[t] == old_rest[orig]);
                if k == old_p.len() {
                    assert(orig != best);
                }
            }
        }
    }
    p
}

} // verus!
