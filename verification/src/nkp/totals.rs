//! Totals of the matrix: K is the sum of the row totals and of the column
//! totals, and reordering columns keeps every row total and K.

use vstd::prelude::*;
use vstd::set_lib::{lemma_int_range, lemma_subset_equality, set_int_range};

use crate::nkp::matrix::{col_sum, grid_sum, row_sum};
use crate::nkp::order::is_perm;

verus! {

/// The sum of the first `c` column totals.
pub open spec fn cols_sum(g: Seq<Seq<u8>>, c: int) -> int
    decreases c,
{
    if c <= 0 {
        0
    } else {
        cols_sum(g, c - 1) + col_sum(g, c - 1)
    }
}

/// The sum of a list of totals.
pub open spec fn usize_sum(s: Seq<usize>) -> int
    decreases s.len(),
{
    if s.len() == 0 {
        0
    } else {
        usize_sum(s.drop_last()) + s.last()
    }
}

/// Totals that are the first `c` column sums add up to `cols_sum`.
pub proof fn lemma_sum_of_col_totals(g: Seq<Seq<u8>>, s: Seq<usize>, c: int)
    requires
        0 <= c,
        s.len() == c,
        forall|j: int| 0 <= j < c ==> #[trigger] s[j] == col_sum(g, j),
    ensures
        usize_sum(s) == cols_sum(g, c),
    decreases c,
{
    if c > 0 {
        let t = s.drop_last();
        assert forall|j: int| 0 <= j < c - 1 implies #[trigger] t[j] == col_sum(g, j) by {
            assert(t[j] == s[j]);
        }
        lemma_sum_of_col_totals(g, t, c - 1);
    }
}

/// Totals that are the row sums add up to K.
pub proof fn lemma_sum_of_row_totals(g: Seq<Seq<u8>>, s: Seq<usize>)
    requires
        s.len() == g.len(),
        forall|i: int| 0 <= i < g.len() ==> #[trigger] s[i] == row_sum(g[i]),
    ensures
        usize_sum(s) == grid_sum(g),
    decreases g.len(),
{
    if g.len() > 0 {
        let h = g.drop_last();
        let t = s.drop_last();
        assert forall|i: int| 0 <= i < h.len() implies #[trigger] t[i] == row_sum(h[i]) by {
            assert(t[i] == s[i]);
            assert(h[i] == g[i]);
        }
        lemma_sum_of_row_totals(h, t);
    }
}

/// K is the sum of the column totals and the sum of the row totals: for a
/// grid whose rows all have `c` cells, any list of its column totals and
/// any list of its row totals add up to the sum of every cell.
pub proof fn lemma_totals_sum_to_k(g: Seq<Seq<u8>>, c: int, col_totals: Seq<usize>, row_totals: Seq<usize>)
    requires
        0 <= c,
        forall|r: int| 0 <= r < g.len() ==> #[trigger] g[r].len() == c,
        col_totals.len() == c,
        forall|j: int| 0 <= j < c ==> #[trigger] col_totals[j] == col_sum(g, j),
        row_totals.len() == g.len(),
        forall|i: int| 0 <= i < g.len() ==> #[trigger] row_totals[i] == row_sum(g[i]),
    ensures
        usize_sum(col_totals) == grid_sum(g),
        usize_sum(row_totals) == grid_sum(g),
{
    lemma_sum_of_col_totals(g, col_totals, c);
    lemma_column_totals_sum_to_k(g, c);
    lemma_sum_of_row_totals(g, row_totals);
}

/// The sum of the first `c` cells of a row.
pub open spec fn prefix_sum(row: Seq<u8>, c: int) -> int
    decreases c,
{
    if c <= 0 {
        0
    } else {
        prefix_sum(row, c - 1) + row[c - 1]
    }
}

proof fn lemma_prefix_sum_whole(row: Seq<u8>, c: int)
    requires
        0 <= c <= row.len(),
    ensures
        prefix_sum(row, c) == row_sum(row.take(c)),
    decreases c,
{
    if c > 0 {
        lemma_prefix_sum_whole(row, c - 1);
        assert(row.take(c).drop_last() =~= row.take(c - 1));
    }
}

proof fn lemma_cols_sum_step(g: Seq<Seq<u8>>, c: int)
    requires
        g.len() > 0,
        0 <= c,
    ensures
        cols_sum(g, c) == cols_sum(g.drop_last(), c) + prefix_sum(g.last(), c),
    decreases c,
{
    if c > 0 {
        lemma_cols_sum_step(g, c - 1);
    }
}

/// K counted by columns: for a grid whose rows all have `c` cells, the sum
/// of the `c` column totals is the sum of all cells, which is the sum of the
/// row totals.
pub proof fn lemma_column_totals_sum_to_k(g: Seq<Seq<u8>>, c: int)
    requires
        0 <= c,
        forall|r: int| 0 <= r < g.len() ==> #[trigger] g[r].len() == c,
    ensures
        cols_sum(g, c) == grid_sum(g),
    decreases g.len(),
{
    if g.len() == 0 {
        lemma_cols_sum_zero_rows(g, c);
    } else {
        let h = g.drop_last();
        assert forall|r: int| 0 <= r < h.len() implies #[trigger] h[r].len() == c by {
            assert(h[r] == g[r]);
        }
        lemma_column_totals_sum_to_k(h, c);
        lemma_cols_sum_step(g, c);
        lemma_prefix_sum_whole(g.last(), c);
        assert(g.last().take(c) =~= g.last());
    }
}

proof fn lemma_cols_sum_zero_rows(g: Seq<Seq<u8>>, c: int)
    requires
        g.len() == 0,
    ensures
        cols_sum(g, c) == 0,
    decreases c,
{
    if c > 0 {
        lemma_cols_sum_zero_rows(g, c - 1);
    }
}

/// A permutation of `0..n` lists every index below `n`.
pub proof fn lemma_perm_covers(p: Seq<usize>, n: int, v: int)
    requires
        is_perm(p, n),
        0 <= v < n,
    ensures
        exists|q: int| 0 <= q < p.len() && p[q] == v,
{
    broadcast use vstd::seq_lib::seq_to_set_is_finite;
    let ints = p.map_values(|x: usize| x as int);
    assert forall|a: int, b: int| 0 <= a < b < ints.len() implies ints[a] != ints[b] by {
        assert(p[a] != p[b]);
    }
    assert(ints.no_duplicates());
    ints.unique_seq_to_set();
    lemma_int_range(0, n);
    assert(ints.to_set().subset_of(set_int_range(0, n))) by {
        assert forall|x: int| ints.to_set().contains(x) implies set_int_range(0, n).contains(x) by {
            let k = choose|k: int| 0 <= k < ints.len() && ints[k] == x;
            assert(p[k] < n);
        }
    }
    lemma_subset_equality(ints.to_set(), set_int_range(0, n));
    assert(set_int_range(0, n).contains(v));
    assert(ints.to_set().contains(v));
    let q = choose|q: int| 0 <= q < ints.len() && ints[q] == v;
    assert(p[q] == v);
}

proof fn lemma_row_sum_remove(s: Seq<u8>, q: int)
    requires
        0 <= q < s.len(),
    ensures
        row_sum(s) == row_sum(s.remove(q)) + s[q],
    decreases s.len(),
{
    if q == s.len() - 1 {
        assert(s.remove(q) =~= s.drop_last());
    } else {
        lemma_row_sum_remove(s.drop_last(), q);
        assert(s.remove(q).drop_last() =~= s.drop_last().remove(q));
        assert(s.remove(q).last() == s.last());
    }
}

/// Summing a row in any order gives its total.
pub proof fn lemma_permuted_row_sum(s: Seq<u8>, p: Seq<usize>)
    requires
        is_perm(p, s.len() as int),
    ensures
        row_sum(p.map_values(|k: usize| s[k as int])) == row_sum(s),
    decreases s.len(),
{
    let n = s.len() as int;
    let m = p.map_values(|k: usize| s[k as int]);
    if n == 0 {
        assert(m =~= Seq::<u8>::empty());
    } else {
        lemma_perm_covers(p, n, n - 1);
        let q = choose|q: int| 0 <= q < p.len() && p[q] == n - 1;
        let p2 = p.remove(q);
        let s2 = s.drop_last();
        assert forall|k: int| 0 <= k < p2.len() implies #[trigger] p2[k] < n - 1 by {
            if k < q {
                assert(p2[k] == p[k]);
                assert(p[k] != p[q]);
            } else {
                assert(p2[k] == p[k + 1]);
                assert(p[k + 1] != p[q]);
            }
        }
        assert forall|a: int, b: int| 0 <= a < b < p2.len() implies p2[a] != p2[b] by {
            let ia = if a < q { a } else { a + 1 };
            let ib = if b < q { b } else { b + 1 };
            assert(p2[a] == p[ia]);
            assert(p2[b] == p[ib]);
            assert(ia != ib);
        }
        assert(is_perm(p2, s2.len() as int));
        lemma_permuted_row_sum(s2, p2);
        let m2 = p2.map_values(|k: usize| s2[k as int]);
        assert(m.remove(q) =~= m2) by {
            assert forall|k: int| 0 <= k < m2.len() implies m.remove(q)[k] == m2[k] by {
                if k < q {
                    assert(m.remove(q)[k] == m[k]);
                } else {
                    assert(m.remove(q)[k] == m[k + 1]);
                }
            }
        }
        lemma_row_sum_remove(m, q);
    }
}

/// Reordering the columns of a grid by a permutation keeps every row total,
/// and so K.
pub proof fn lemma_permuted_columns_keep_totals(g: Seq<Seq<u8>>, h: Seq<Seq<u8>>, p: Seq<usize>, c: int)
    requires
        g.len() == h.len(),
        is_perm(p, c),
        forall|r: int| 0 <= r < g.len() ==> #[trigger] g[r].len() == c,
        forall|r: int| 0 <= r < h.len() ==> #[trigger] h[r].len() == c,
        forall|r: int, k: int| 0 <= r < g.len() && 0 <= k < c ==> #[trigger] h[r][k] == g[r][p[k] as int],
    ensures
        forall|r: int| 0 <= r < g.len() ==> #[trigger] row_sum(h[r]) == row_sum(g[r]),
        grid_sum(h) == grid_sum(g),
    decreases g.len(),
{
    assert forall|r: int| 0 <= r < g.len() implies #[trigger] row_sum(h[r]) == row_sum(g[r]) by {
        let gr = g[r];
        assert(h[r] =~= p.map_values(|k: usize| gr[k as int]));
        lemma_permuted_row_sum(gr, p);
    }
    if g.len() > 0 {
        let g2 = g.drop_last();
        let h2 = h.drop_last();
        assert forall|r: int| 0 <= r < g2.len() implies #[trigger] g2[r].len() == c by {
            assert(g2[r] == g[r]);
        }
        assert forall|r: int| 0 <= r < h2.len() implies #[trigger] h2[r].len() == c by {
            assert(h2[r] == h[r]);
        }
        assert forall|r: int, k: int| 0 <= r < g2.len() && 0 <= k < c implies #[trigger] h2[r][k]
            == g2[r][p[k] as int] by {
            assert(h2[r] == h[r]);
            assert(g2[r] == g[r]);
        }
        lemma_permuted_columns_keep_totals(g2, h2, p, c);
        assert(row_sum(h.last()) == row_sum(g.last()));
    }
}

} // verus!
