//! The NKP matrix: stressors (rows) × components (columns), a cell being 1
//! when the stressor affects the component.

use vstd::prelude::*;

use crate::nkp::totals::{lemma_column_totals_sum_to_k, lemma_permuted_columns_keep_totals, lemma_sum_of_col_totals, lemma_sum_of_row_totals, usize_sum};
use crate::nkp::order::{in_key_order, is_perm, key_less, key_view, key_views, lemma_seq_less_asymmetric, lemma_seq_less_irreflexive, precedes, seq_less, sorted_order, KeyView, SortKey};
use crate::cli::MatrixSortBy;
use crate::nkp::{lookup, NameMap};
use crate::storage::format::{csv_text, encode_records};
use crate::storage::stressors::Stressor;
use crate::text::{chars_of, concat_str, decimal, decimal_string, contains_str, contains_string, eq_ignore_ascii, eq_ignore_ascii_case_str, has_infix, lowercase, to_lower, split, split_str, trim, trim_str, views};

verus! {

/// The component tokens of a `components_affected` field: the pieces
/// between commas, each trimmed.
pub open spec fn tokens(s: Seq<char>) -> Seq<Seq<char>> {
    split(s, ',').map_values(|t: Seq<char>| trim(t))
}

/// Every component token of the stressors, stressor by stressor.
pub open spec fn all_tokens(stressors: Seq<Stressor>) -> Seq<Seq<char>> {
    stressors.flat_map(|s: Stressor| tokens(s.components_affected@))
}

/// The distinct non-empty tokens, in order of first appearance.
pub open spec fn first_seen(toks: Seq<Seq<char>>) -> Seq<Seq<char>>
    decreases toks.len(),
{
    if toks.len() == 0 {
        Seq::<Seq<char>>::empty()
    } else {
        let prev = first_seen(toks.drop_last());
        let t = toks.last();
        if t.len() == 0 || prev.contains(t) {
            prev
        } else {
            prev.push(t)
        }
    }
}

/// Sum of a row.
pub open spec fn row_sum(row: Seq<u8>) -> int
    decreases row.len(),
{
    if row.len() == 0 {
        0
    } else {
        row_sum(row.drop_last()) + row.last()
    }
}

/// Sum of every cell.
pub open spec fn grid_sum(g: Seq<Seq<u8>>) -> int
    decreases g.len(),
{
    if g.len() == 0 {
        0
    } else {
        grid_sum(g.drop_last()) + row_sum(g.last())
    }
}

/// Sum of column `j`.
pub open spec fn col_sum(g: Seq<Seq<u8>>, j: int) -> int
    decreases g.len(),
{
    if g.len() == 0 {
        0
    } else {
        col_sum(g.drop_last(), j) + g.last()[j]
    }
}

/// The number of rows with a 1 in both column `a` and column `b`.
pub open spec fn shared(g: Seq<Seq<u8>>, a: int, b: int) -> int
    decreases g.len(),
{
    if g.len() == 0 {
        0
    } else {
        shared(g.drop_last(), a, b) + if g.last()[a] == 1 && g.last()[b] == 1 {
            1int
        } else {
            0int
        }
    }
}

/// Columns `a` and `b` hold the same vector.
pub open spec fn identical(g: Seq<Seq<u8>>, a: int, b: int) -> bool {
    forall|r: int| 0 <= r < g.len() ==> #[trigger] g[r][a] == g[r][b]
}

/// The pairs `(i, j)`, `j` from `from` up to `n`, that `keep` accepts.
pub open spec fn pairs_in_row(n: int, i: int, from: int, keep: spec_fn(int, int) -> bool) -> Seq<
    (int, int),
>
    decreases n - from,
{
    if from >= n {
        Seq::<(int, int)>::empty()
    } else {
        let rest = pairs_in_row(n, i, from + 1, keep);
        if keep(i, from) {
            seq![(i, from)] + rest
        } else {
            rest
        }
    }
}

/// The pairs `(i, j)`, `from <= i < j < n`, that `keep` accepts, in
/// lexicographic order.
pub open spec fn pairs_from(n: int, from: int, keep: spec_fn(int, int) -> bool) -> Seq<(int, int)>
    decreases n - from,
{
    if from >= n {
        Seq::<(int, int)>::empty()
    } else {
        pairs_in_row(n, from, from + 1, keep) + pairs_from(n, from + 1, keep)
    }
}

/// Index pairs as pairs of names.
pub open spec fn named_pairs(names: Seq<Seq<char>>, ps: Seq<(int, int)>) -> Seq<
    (Seq<char>, Seq<char>),
> {
    ps.map_values(|p: (int, int)| (names[p.0], names[p.1]))
}

/// Hyperliminal coupling: at least two stressors hit both components.
pub open spec fn hyperliminal_rule(g: Seq<Seq<u8>>) -> spec_fn(int, int) -> bool {
    |a: int, b: int| shared(g, a, b) >= 2
}

/// Fusion: the two components respond to exactly the same stressors.
pub open spec fn fusion_rule(g: Seq<Seq<u8>>) -> spec_fn(int, int) -> bool {
    |a: int, b: int| identical(g, a, b)
}

/// The names of the columns, from `from` on, whose total exceeds `threshold`.
pub open spec fn heavy_from(g: Seq<Seq<u8>>, names: Seq<Seq<char>>, threshold: int, from: int) -> Seq<
    Seq<char>,
>
    decreases names.len() - from,
{
    if from >= names.len() {
        Seq::<Seq<char>>::empty()
    } else {
        let rest = heavy_from(g, names, threshold, from + 1);
        if col_sum(g, from) > threshold {
            seq![names[from]] + rest
        } else {
            rest
        }
    }
}

pub proof fn lemma_row_sum_bound(row: Seq<u8>)
    requires
        forall|j: int| 0 <= j < row.len() ==> #[trigger] row[j] <= 1,
    ensures
        0 <= row_sum(row) <= row.len(),
    decreases row.len(),
{
    if row.len() > 0 {
        lemma_row_sum_bound(row.drop_last());
    }
}

/// The default fission threshold: half the rows, at least 1.
pub open spec fn fission_threshold(rows: int) -> int {
    if rows / 2 >= 1 {
        rows / 2
    } else {
        1
    }
}

/// `fission_threshold` for a number of rows.
pub fn default_fission_threshold(rows: usize) -> (r: usize)
    ensures
        r == fission_threshold(rows as int),
{
    if rows / 2 >= 1 {
        rows / 2
    } else {
        1
    }
}

/// The highest column below `upto` identical to column `j` (`j` itself
/// when none is): the name the fusion clusters are merged under.
pub open spec fn last_twin(g: Seq<Seq<u8>>, j: int, upto: int) -> int
    decreases upto,
{
    if upto <= 0 {
        j
    } else if identical(g, j, upto - 1) {
        upto - 1
    } else {
        last_twin(g, j, upto - 1)
    }
}

pub proof fn lemma_last_twin_range(g: Seq<Seq<u8>>, j: int, upto: int)
    requires
        0 <= j < upto,
    ensures
        j <= last_twin(g, j, upto) < upto,
    decreases upto,
{
    if !identical(g, j, upto - 1) {
        if upto - 1 == j {
            assert(identical(g, j, j));
        }
        lemma_last_twin_range(g, j, upto - 1);
    }
}

/// Some other column below `n` holds the same vector as column `j`.
pub open spec fn has_twin(g: Seq<Seq<u8>>, j: int, n: int) -> bool {
    exists|k: int| 0 <= k < n && k != j && #[trigger] identical(g, j, k)
}

/// A column holds the same vector as its cluster's named column.
pub proof fn lemma_last_twin_identical(g: Seq<Seq<u8>>, j: int, upto: int)
    requires
        0 <= j < upto,
    ensures
        identical(g, j, last_twin(g, j, upto)),
    decreases upto,
{
    if !identical(g, j, upto - 1) {
        if upto - 1 == j {
            assert(identical(g, j, j));
        }
        lemma_last_twin_identical(g, j, upto - 1);
    }
}

/// Columns with the same vector are named under the same column.
pub proof fn lemma_last_twin_same(g: Seq<Seq<u8>>, x: int, y: int, upto: int)
    requires
        0 <= x < upto,
        0 <= y < upto,
        identical(g, x, y),
    ensures
        last_twin(g, x, upto) == last_twin(g, y, upto),
    decreases upto,
{
    let c = upto - 1;
    assert(identical(g, x, c) <==> identical(g, y, c)) by {
        if identical(g, x, c) {
            assert forall|r: int| 0 <= r < g.len() implies #[trigger] g[r][y] == g[r][c] by {
                assert(g[r][x] == g[r][y]);
                assert(g[r][x] == g[r][c]);
            }
        }
        if identical(g, y, c) {
            assert forall|r: int| 0 <= r < g.len() implies #[trigger] g[r][x] == g[r][c] by {
                assert(g[r][x] == g[r][y]);
                assert(g[r][y] == g[r][c]);
            }
        }
    }
    if !identical(g, x, c) {
        if c == x {
            assert(identical(g, x, x));
        }
        if c == y {
            assert(identical(g, y, y));
        }
        lemma_last_twin_same(g, x, y, upto - 1);
    }
}

/// The number of rows with a 1 in column `j`.
pub open spec fn col_ones(g: Seq<Seq<u8>>, j: int) -> int
    decreases g.len(),
{
    if g.len() == 0 {
        0
    } else {
        col_ones(g.drop_last(), j) + if g.last()[j] == 1 {
            1int
        } else {
            0int
        }
    }
}

/// A column of 0/1 cells sums to the number of its 1s.
pub proof fn lemma_col_sum_counts_ones(g: Seq<Seq<u8>>, j: int)
    requires
        forall|r: int| 0 <= r < g.len() ==> #[trigger] g[r][j] <= 1,
    ensures
        col_sum(g, j) == col_ones(g, j),
    decreases g.len(),
{
    if g.len() > 0 {
        let h = g.drop_last();
        assert forall|r: int| 0 <= r < h.len() implies #[trigger] h[r][j] <= 1 by {
            assert(h[r] == g[r]);
        }
        assert(g.last() == g[g.len() - 1]);
        lemma_col_sum_counts_ones(h, j);
    }
}

/// A column of 0/1 cells sums to at most the number of rows.
pub proof fn lemma_col_sum_bound(g: Seq<Seq<u8>>, j: int)
    requires
        forall|r: int| 0 <= r < g.len() ==> #[trigger] g[r][j] <= 1,
    ensures
        0 <= col_sum(g, j) <= g.len(),
    decreases g.len(),
{
    if g.len() > 0 {
        let h = g.drop_last();
        assert forall|r: int| 0 <= r < h.len() implies #[trigger] h[r][j] <= 1 by {
            assert(h[r] == g[r]);
        }
        assert(g.last() == g[g.len() - 1]);
        lemma_col_sum_bound(h, j);
    }
}

/// Columns with the same vector have the same total.
pub proof fn lemma_identical_col_sum(g: Seq<Seq<u8>>, a: int, b: int)
    requires
        identical(g, a, b),
    ensures
        col_sum(g, a) == col_sum(g, b),
    decreases g.len(),
{
    if g.len() > 0 {
        let h = g.drop_last();
        assert(identical(h, a, b)) by {
            assert forall|r: int| 0 <= r < h.len() implies #[trigger] h[r][a] == h[r][b] by {
                assert(h[r] == g[r]);
            }
        }
        assert(g.last() == g[g.len() - 1]);
        lemma_identical_col_sum(h, a, b);
    }
}

/// A column with no twin is its own cluster's name.
pub proof fn lemma_last_twin_alone(g: Seq<Seq<u8>>, j: int, upto: int)
    requires
        0 <= j < upto,
        forall|k: int| 0 <= k < upto && k != j ==> !#[trigger] identical(g, j, k),
    ensures
        last_twin(g, j, upto) == j,
    decreases upto,
{
    if upto - 1 != j {
        lemma_last_twin_alone(g, j, upto - 1);
    } else {
        assert(identical(g, j, j));
    }
}

/// The cell of a stressor's row in a component's column.
pub open spec fn cell_of(s: Stressor, component: Seq<char>) -> u8 {
    if tokens(s.components_affected@).contains(component) {
        1
    } else {
        0
    }
}

pub proof fn lemma_first_seen_distinct(toks: Seq<Seq<char>>)
    ensures
        first_seen(toks).no_duplicates(),
        forall|k: int| 0 <= k < first_seen(toks).len() ==> #[trigger] first_seen(toks)[k].len() > 0,
    decreases toks.len(),
{
    if toks.len() > 0 {
        lemma_first_seen_distinct(toks.drop_last());
    }
}

/// The first-seen list holds exactly the non-empty tokens, each once.
pub proof fn lemma_first_seen_members(toks: Seq<Seq<char>>, t: Seq<char>)
    ensures
        first_seen(toks).contains(t) <==> (toks.contains(t) && t.len() > 0),
    decreases toks.len(),
{
    if toks.len() > 0 {
        let front = toks.drop_last();
        let prev = first_seen(front);
        let last = toks.last();
        lemma_first_seen_members(front, t);
        assert(toks.contains(t) <==> (front.contains(t) || last == t)) by {
            if toks.contains(t) {
                let k = choose|k: int| 0 <= k < toks.len() && toks[k] == t;
                if k < front.len() {
                    assert(front[k] == t);
                }
            }
            if front.contains(t) {
                let k = choose|k: int| 0 <= k < front.len() && front[k] == t;
                assert(toks[k] == t);
            }
            assert(toks[toks.len() - 1] == last);
        }
        if last.len() == 0 || prev.contains(last) {
            assert(first_seen(toks) == prev);
        } else {
            assert(first_seen(toks) == prev.push(last));
            assert(prev.push(last)[prev.len() as int] == last);
            if prev.contains(t) {
                let k = choose|k: int| 0 <= k < prev.len() && prev[k] == t;
                assert(prev.push(last)[k] == t);
            }
            if prev.push(last).contains(t) && t != last {
                let k = choose|k: int| 0 <= k < prev.push(last).len() && prev.push(last)[k] == t;
                assert(prev[k] == t);
            }
        }
    }
}

/// The component tokens of one `components_affected` field.
pub fn component_tokens(s: &str) -> (r: Vec<String>)
    ensures
        views(r@) == tokens(s@),
{
    let parts = split_str(s, ',');
    let mut r: Vec<String> = Vec::new();
    let mut j: usize = 0;
    while j < parts.len()
        invariant
            j <= parts@.len(),
            views(parts@) == split(s@, ','),
            views(r@) == views(parts@).take(j as int).map_values(|t: Seq<char>| trim(t)),
        decreases parts@.len() - j,
    {
        let t = trim_str(parts[j].as_str());
        let ghost old_r = r@;
        r.push(t);
        assert(views(parts@)[j as int] == parts@[j as int]@);
        assert(views(r@) =~= views(old_r).push(trim(parts@[j as int]@)));
        j = j + 1;
        assert(views(r@) =~= views(parts@).take(j as int).map_values(|t: Seq<char>| trim(t)));
    }
    assert(views(parts@).take(parts@.len() as int) =~= views(parts@));
    r
}

/// The NKP incidence matrix.
#[derive(Debug)]
pub struct NkpMatrix {
    pub stressor_ids: Vec<String>,
    /// Attractor id per row (parallel to `stressor_ids`).
    pub attractor_ids: Vec<String>,
    pub components: Vec<String>,
    /// Row-major: `cells[row][column]` is 0 or 1.
    pub cells: Vec<Vec<u8>>,
}

impl NkpMatrix {
    /// The cells as sequences.
    pub open spec fn grid(&self) -> Seq<Seq<u8>> {
        self.cells@.map_values(|r: Vec<u8>| r@)
    }

    pub open spec fn rows(&self) -> int {
        self.stressor_ids@.len() as int
    }

    pub open spec fn cols(&self) -> int {
        self.components@.len() as int
    }

    /// The component names.
    pub open spec fn names(&self) -> Seq<Seq<char>> {
        views(self.components@)
    }

    /// A well-formed matrix: one attractor id and one row per stressor, one
    /// 0/1 cell per component in each row, distinct component names.
    pub open spec fn wf(&self) -> bool {
        &&& self.attractor_ids@.len() == self.rows()
        &&& self.cells@.len() == self.rows()
        &&& forall|i: int| 0 <= i < self.rows() ==> #[trigger] self.grid()[i].len() == self.cols()
        &&& forall|i: int, j: int|
            0 <= i < self.rows() && 0 <= j < self.cols() ==> #[trigger] self.grid()[i][j] <= 1
        &&& self.names().no_duplicates()
    }

    /// Builds the matrix: one row per stressor in order, one column per
    /// distinct non-empty component token in order of first appearance.
    pub fn build(stressors: &[Stressor]) -> (m: NkpMatrix)
        ensures
            m.wf(),
            views(m.stressor_ids@) == stressors@.map_values(|s: Stressor| s.id@),
            views(m.attractor_ids@) == stressors@.map_values(|s: Stressor| s.attractor_id@),
            m.names() == first_seen(all_tokens(stressors@)),
            forall|i: int, j: int|
                0 <= i < m.rows() && 0 <= j < m.cols() ==> #[trigger] m.grid()[i][j] == cell_of(
                    stressors@[i],
                    m.names()[j],
                ),
    {
        let n = stressors.len();
        let mut components: Vec<String> = Vec::new();
        let mut i: usize = 0;
        assert(stressors@.take(0) =~= Seq::<Stressor>::empty());
        assert(all_tokens(stressors@.take(0)) =~= Seq::<Seq<char>>::empty());
        while i < n
            invariant
                i <= n == stressors@.len(),
                views(components@) == first_seen(all_tokens(stressors@.take(i as int))),
            decreases n - i,
        {
            let toks = component_tokens(stressors[i].components_affected.as_str());
            let ghost base = all_tokens(stressors@.take(i as int));
            let ghost toks_v = tokens(stressors@[i as int].components_affected@);
            let mut j: usize = 0;
            assert(base + toks_v.take(0) =~= base);
            while j < toks.len()
                invariant
                    j <= toks@.len(),
                    views(toks@) == toks_v,
                    views(components@) == first_seen(base + toks_v.take(j as int)),
                decreases toks@.len() - j,
            {
                let ghost pre = base + toks_v.take(j as int);
                assert((base + toks_v.take(j + 1)).drop_last() =~= pre);
                assert((base + toks_v.take(j + 1)).last() == toks@[j as int]@);
                let t = toks[j].clone();
                if t.as_str().unicode_len() > 0 && !contains_string(&components, &t) {
                    let ghost old_c = components@;
                    components.push(t);
                    assert(views(components@) =~= views(old_c).push(toks@[j as int]@));
                }
                j = j + 1;
            }
            proof {
                assert(toks_v.take(toks_v.len() as int) =~= toks_v);
                assert(stressors@.take(i + 1) =~= stressors@.take(i as int).push(stressors@[i as int]));
                stressors@.take(i as int).lemma_flat_map_push(
                    |s: Stressor| tokens(s.components_affected@),
                    stressors@[i as int],
                );
            }
            i = i + 1;
        }
        assert(stressors@.take(n as int) =~= stressors@);
        proof {
            lemma_first_seen_distinct(all_tokens(stressors@));
        }
        let mut stressor_ids: Vec<String> = Vec::new();
        let mut attractor_ids: Vec<String> = Vec::new();
        let mut cells: Vec<Vec<u8>> = Vec::new();
        let ncols = components.len();
        let mut r: usize = 0;
        while r < n
            invariant
                r <= n == stressors@.len(),
                ncols == components@.len(),
                views(stressor_ids@) == stressors@.take(r as int).map_values(|s: Stressor| s.id@),
                views(attractor_ids@) == stressors@.take(r as int).map_values(
                    |s: Stressor| s.attractor_id@,
                ),
                cells@.len() == r,
                forall|a: int| 0 <= a < r ==> #[trigger] cells@[a]@.len() == ncols,
                forall|a: int, b: int|
                    0 <= a < r && 0 <= b < ncols ==> #[trigger] cells@[a]@[b] == cell_of(
                        stressors@[a],
                        components@[b]@,
                    ),
            decreases n - r,
        {
            let toks = component_tokens(stressors[r].components_affected.as_str());
            let mut row: Vec<u8> = Vec::new();
            let mut j: usize = 0;
            while j < ncols
                invariant
                    j <= ncols == components@.len(),
                    views(toks@) == tokens(stressors@[r as int].components_affected@),
                    row@.len() == j,
                    forall|b: int|
                        0 <= b < j ==> #[trigger] row@[b] == cell_of(
                            stressors@[r as int],
                            components@[b]@,
                        ),
                decreases ncols - j,
            {
                if contains_string(&toks, &components[j]) {
                    row.push(1);
                } else {
                    row.push(0);
                }
                j = j + 1;
            }
            let ghost old_ids = stressor_ids@;
            let ghost old_aids = attractor_ids@;
            stressor_ids.push(stressors[r].id.clone());
            attractor_ids.push(stressors[r].attractor_id.clone());
            cells.push(row);
            assert(stressors@.take(r + 1) =~= stressors@.take(r as int).push(stressors@[r as int]));
            assert(views(stressor_ids@) =~= views(old_ids).push(stressors@[r as int].id@));
            assert(views(attractor_ids@) =~= views(old_aids).push(
                stressors@[r as int].attractor_id@,
            ));
            r = r + 1;
        }
        assert(stressors@.take(n as int) =~= stressors@);
        let m = NkpMatrix { stressor_ids, attractor_ids, components, cells };
        assert forall|a: int| 0 <= a < m.rows() implies #[trigger] m.grid()[a].len() == m.cols() by {
            assert(m.grid()[a] == m.cells@[a]@);
        }
        assert forall|a: int, b: int|
            0 <= a < m.rows() && 0 <= b < m.cols() implies #[trigger] m.grid()[a][b] == cell_of(
            stressors@[a],
            m.names()[b],
        ) by {
            assert(m.grid()[a] == m.cells@[a]@);
            assert(m.names()[b] == m.components@[b]@);
            assert(m.cells@[a]@[b] == cell_of(stressors@[a], m.components@[b]@));
        }
        m
    }

    /// N: rows plus columns.
    pub fn n(&self) -> (r: usize)
        requires
            self.rows() + self.cols() <= usize::MAX,
        ensures
            r == self.rows() + self.cols(),
    {
        self.stressor_ids.len() + self.components.len()
    }

    /// K: the number of 1 cells.
    pub fn k(&self) -> (r: usize)
        requires
            self.wf(),
            self.rows() * self.cols() <= usize::MAX,
        ensures
            r == grid_sum(self.grid()),
    {
        let rows = self.cells.len();
        let cols = self.components.len();
        let mut total: usize = 0;
        let mut i: usize = 0;
        while i < rows
            invariant
                self.wf(),
                rows == self.rows(),
                cols == self.cols(),
                rows * cols <= usize::MAX,
                i <= rows,
                total == grid_sum(self.grid().take(i as int)),
                total <= i * cols,
            decreases rows - i,
        {
            let mut j: usize = 0;
            let ghost row = self.grid()[i as int];
            assert(row == self.cells@[i as int]@);
            let ghost base = total as int;
            while j < cols
                invariant
                    self.wf(),
                    rows == self.rows(),
                    cols == self.cols(),
                    rows * cols <= usize::MAX,
                    i < rows,
                    j <= cols,
                    row == self.cells@[i as int]@,
                    row == self.grid()[i as int],
                    row.len() == cols,
                    base <= i * cols,
                    total == base + row_sum(row.take(j as int)),
                    total <= base + j,
                decreases cols - j,
            {
                assert(row.take(j + 1).drop_last() =~= row.take(j as int));
                assert(self.grid()[i as int][j as int] <= 1);
                assert(i * cols + j + 1 <= rows * cols) by (nonlinear_arith)
                    requires
                        i < rows,
                        j < cols,
                ;
                total = total + self.cells[i][j] as usize;
                j = j + 1;
            }
            assert(row.take(cols as int) =~= row);
            assert(self.grid().take(i + 1).drop_last() =~= self.grid().take(i as int));
            assert(i * cols + cols == (i + 1) * cols) by (nonlinear_arith);
            i = i + 1;
        }
        assert(self.grid().take(rows as int) =~= self.grid());
        total
    }

    /// The sum of each row.
    pub fn row_totals(&self) -> (r: Vec<usize>)
        requires
            self.wf(),
        ensures
            r@.len() == self.rows(),
            forall|i: int| 0 <= i < self.rows() ==> #[trigger] r@[i] == row_sum(self.grid()[i]),
            usize_sum(r@) == grid_sum(self.grid()),
    {
        let rows = self.cells.len();
        let cols = self.components.len();
        let mut out: Vec<usize> = Vec::new();
        let mut i: usize = 0;
        while i < rows
            invariant
                self.wf(),
                rows == self.rows(),
                cols == self.cols(),
                i <= rows,
                out@.len() == i,
                forall|a: int| 0 <= a < i ==> #[trigger] out@[a] == row_sum(self.grid()[a]),
            decreases rows - i,
        {
            let ghost row = self.grid()[i as int];
            assert(row == self.cells@[i as int]@);
            let mut total: usize = 0;
            let mut j: usize = 0;
            while j < cols
                invariant
                    self.wf(),
                    rows == self.rows(),
                    cols == self.cols(),
                    i < rows,
                    j <= cols,
                    row == self.cells@[i as int]@,
                    row == self.grid()[i as int],
                    row.len() == cols,
                    total == row_sum(row.take(j as int)),
                    total <= j,
                decreases cols - j,
            {
                assert(row.take(j + 1).drop_last() =~= row.take(j as int));
                assert(self.grid()[i as int][j as int] <= 1);
                total = total + self.cells[i][j] as usize;
                j = j + 1;
            }
            assert(row.take(cols as int) =~= row);
            out.push(total);
            i = i + 1;
        }
        proof {
            lemma_sum_of_row_totals(self.grid(), out@);
        }
        out
    }

    /// The sum of each column (no totals when there are no columns).
    pub fn col_totals(&self) -> (r: Vec<usize>)
        requires
            self.wf(),
        ensures
            r@.len() == self.cols(),
            forall|j: int| 0 <= j < self.cols() ==> #[trigger] r@[j] == col_sum(self.grid(), j),
            forall|j: int| 0 <= j < self.cols() ==> #[trigger] r@[j] == col_ones(self.grid(), j),
            usize_sum(r@) == grid_sum(self.grid()),
    {
        let rows = self.cells.len();
        let cols = self.components.len();
        proof {
            lemma_column_totals_sum_to_k(self.grid(), cols as int);
        }
        if cols == 0 {
            return Vec::new();
        }
        let mut totals: Vec<usize> = Vec::new();
        let mut j: usize = 0;
        while j < cols
            invariant
                j <= cols,
                totals@.len() == j,
                forall|b: int| 0 <= b < j ==> #[trigger] totals@[b] == 0,
            decreases cols - j,
        {
            totals.push(0);
            j = j + 1;
        }
        assert(self.grid().take(0) =~= Seq::<Seq<u8>>::empty());
        let mut i: usize = 0;
        while i < rows
            invariant
                self.wf(),
                rows == self.rows(),
                cols == self.cols(),
                i <= rows,
                totals@.len() == cols,
                forall|b: int|
                    0 <= b < cols ==> #[trigger] totals@[b] == col_sum(self.grid().take(i as int), b)
                        && totals@[b] <= i,
            decreases rows - i,
        {
            let ghost row = self.grid()[i as int];
            assert(row == self.cells@[i as int]@);
            let ghost prev = totals@;
            assert(self.grid().take(i + 1).drop_last() =~= self.grid().take(i as int));
            assert(self.grid().take(i + 1).last() == row);
            let mut j: usize = 0;
            while j < cols
                invariant
                    self.wf(),
                    rows == self.rows(),
                    cols == self.cols(),
                    i < rows,
                    j <= cols,
                    row == self.cells@[i as int]@,
                    row == self.grid()[i as int],
                    row.len() == cols,
                    totals@.len() == cols,
                    forall|b: int| 0 <= b < j ==> #[trigger] totals@[b] == prev[b] + row[b],
                    forall|b: int| j <= b < cols ==> #[trigger] totals@[b] == prev[b],
                    forall|b: int|
                        0 <= b < cols ==> #[trigger] prev[b] == col_sum(
                            self.grid().take(i as int),
                            b,
                        ) && prev[b] <= i,
                decreases cols - j,
            {
                assert(self.grid()[i as int][j as int] <= 1);
                let v = totals[j] + self.cells[i][j] as usize;
                totals.set(j, v);
                j = j + 1;
            }
            i = i + 1;
        }
        assert(self.grid().take(rows as int) =~= self.grid());
        proof {
            lemma_sum_of_col_totals(self.grid(), totals@, cols as int);
            assert forall|b: int| 0 <= b < cols implies #[trigger] totals@[b] == col_ones(self.grid(), b) by {
                lemma_col_sum_counts_ones(self.grid(), b);
            }
        }
        totals
    }

    fn shared_count(&self, a: usize, b: usize) -> (r: usize)
        requires
            self.wf(),
            a < self.cols(),
            b < self.cols(),
        ensures
            r == shared(self.grid(), a as int, b as int),
    {
        let rows = self.cells.len();
        let mut count: usize = 0;
        let mut i: usize = 0;
        assert(self.grid().take(0) =~= Seq::<Seq<u8>>::empty());
        while i < rows
            invariant
                self.wf(),
                rows == self.rows(),
                a < self.cols(),
                b < self.cols(),
                i <= rows,
                count == shared(self.grid().take(i as int), a as int, b as int),
                count <= i,
            decreases rows - i,
        {
            assert(self.grid().take(i + 1).drop_last() =~= self.grid().take(i as int));
            assert(self.grid()[i as int] == self.cells@[i as int]@);
            if self.cells[i][a] == 1 && self.cells[i][b] == 1 {
                count = count + 1;
            }
            i = i + 1;
        }
        assert(self.grid().take(rows as int) =~= self.grid());
        count
    }

    fn columns_identical(&self, a: usize, b: usize) -> (r: bool)
        requires
            self.wf(),
            a < self.cols(),
            b < self.cols(),
        ensures
            r == identical(self.grid(), a as int, b as int),
    {
        let rows = self.cells.len();
        let mut i: usize = 0;
        while i < rows
            invariant
                self.wf(),
                rows == self.rows(),
                a < self.cols(),
                b < self.cols(),
                i <= rows,
                forall|r: int| 0 <= r < i ==> #[trigger] self.grid()[r][a as int] == self.grid()[r][b as int],
            decreases rows - i,
        {
            assert(self.grid()[i as int] == self.cells@[i as int]@);
            if self.cells[i][a] != self.cells[i][b] {
                return false;
            }
            i = i + 1;
        }
        true
    }

    /// The pairs of columns (as names, lexicographic by index) that `keep`
    /// accepts, `keep_exec` computing `keep`.
    fn pairs_where(&self, fusion: bool) -> (r: Vec<(String, String)>)
        requires
            self.wf(),
        ensures
            r.deep_view() == named_pairs(
                self.names(),
                pairs_from(
                    self.cols(),
                    0,
                    if fusion {
                        fusion_rule(self.grid())
                    } else {
                        hyperliminal_rule(self.grid())
                    },
                ),
            ),
    {
        let ghost keep = if fusion {
            fusion_rule(self.grid())
        } else {
            hyperliminal_rule(self.grid())
        };
        let n = self.components.len();
        let mut out: Vec<(String, String)> = Vec::new();
        let ghost mut found: Seq<(int, int)> = Seq::empty();
        let mut i: usize = 0;
        assert(found + pairs_from(n as int, 0, keep) =~= pairs_from(n as int, 0, keep));
        while i < n
            invariant
                self.wf(),
                n == self.cols(),
                i <= n,
                keep == (if fusion {
                    fusion_rule(self.grid())
                } else {
                    hyperliminal_rule(self.grid())
                }),
                found + pairs_from(n as int, i as int, keep) == pairs_from(n as int, 0, keep),
                forall|t: int| 0 <= t < found.len() ==> 0 <= #[trigger] found[t].0 < n && 0 <= found[t].1 < n,
                out.deep_view() == named_pairs(self.names(), found),
            decreases n - i,
        {
            let mut j: usize = i + 1;
            assert(found + pairs_in_row(n as int, i as int, j as int, keep) + pairs_from(
                n as int,
                i + 1,
                keep,
            ) =~= found + pairs_from(n as int, i as int, keep));
            while j < n
                invariant
                    self.wf(),
                    n == self.cols(),
                    i < n,
                    i < j <= n,
                    keep == (if fusion {
                        fusion_rule(self.grid())
                    } else {
                        hyperliminal_rule(self.grid())
                    }),
                    found + pairs_in_row(n as int, i as int, j as int, keep) + pairs_from(
                        n as int,
                        i + 1,
                        keep,
                    ) == pairs_from(n as int, 0, keep),
                    forall|t: int| 0 <= t < found.len() ==> 0 <= #[trigger] found[t].0 < n && 0 <= found[t].1 < n,
                    out.deep_view() == named_pairs(self.names(), found),
                decreases n - j,
            {
                let hit = if fusion {
                    self.columns_identical(i, j)
                } else {
                    self.shared_count(i, j) >= 2
                };
                assert(hit == keep(i as int, j as int));
                if hit {
                    let ghost old_out = out.deep_view();
                    out.push((self.components[i].clone(), self.components[j].clone()));
                    proof {
                        assert(found.push((i as int, j as int)) + pairs_in_row(
                            n as int,
                            i as int,
                            j + 1,
                            keep,
                        ) + pairs_from(n as int, i + 1, keep) =~= found + pairs_in_row(
                            n as int,
                            i as int,
                            j as int,
                            keep,
                        ) + pairs_from(n as int, i + 1, keep));
                        assert(out.deep_view() =~= old_out.push(
                            (self.components@[i as int]@, self.components@[j as int]@),
                        ));
                        assert(self.names()[i as int] == self.components@[i as int]@);
                        assert(self.names()[j as int] == self.components@[j as int]@);
                        found = found.push((i as int, j as int));
                        assert(out.deep_view() =~= named_pairs(self.names(), found));
                    }
                }
                j = j + 1;
            }
            i = i + 1;
        }
        assert(found =~= pairs_from(n as int, 0, keep));
        out
    }

    /// Hyperliminal pairs: components that two or more stressors hit
    /// together, lexicographic by column.
    pub fn hyperliminal_pairs(&self) -> (r: Vec<(String, String)>)
        requires
            self.wf(),
        ensures
            r.deep_view() == named_pairs(
                self.names(),
                pairs_from(self.cols(), 0, hyperliminal_rule(self.grid())),
            ),
    {
        self.pairs_where(false)
    }

    /// Fusion candidates: components with identical columns.
    pub fn fusion_candidates(&self) -> (r: Vec<(String, String)>)
        requires
            self.wf(),
        ensures
            r.deep_view() == named_pairs(self.names(), pairs_from(self.cols(), 0, fusion_rule(self.grid()))),
    {
        self.pairs_where(true)
    }

    /// Fission candidates: components whose column total exceeds `threshold`.
    pub fn fission_candidates(&self, threshold: usize) -> (r: Vec<String>)
        requires
            self.wf(),
        ensures
            views(r@) == heavy_from(self.grid(), self.names(), threshold as int, 0),
    {
        let totals = self.col_totals();
        let n = self.components.len();
        let mut out: Vec<String> = Vec::new();
        let mut j: usize = 0;
        assert(views(out@) + heavy_from(self.grid(), self.names(), threshold as int, 0)
            =~= heavy_from(self.grid(), self.names(), threshold as int, 0));
        while j < n
            invariant
                self.wf(),
                n == self.cols(),
                totals@.len() == n,
                forall|b: int| 0 <= b < n ==> #[trigger] totals@[b] == col_sum(self.grid(), b),
                j <= n,
                views(out@) + heavy_from(self.grid(), self.names(), threshold as int, j as int)
                    == heavy_from(self.grid(), self.names(), threshold as int, 0),
            decreases n - j,
        {
            if totals[j] > threshold {
                let ghost old_out = views(out@);
                out.push(self.components[j].clone());
                assert(views(out@) =~= old_out.push(self.names()[j as int]));
                assert(old_out.push(self.names()[j as int]) + heavy_from(self.grid(), self.names(), threshold as int, j + 1)
                    =~= old_out + heavy_from(self.grid(), self.names(), threshold as int, j as int));
            }
            j = j + 1;
        }
        assert(views(out@) + heavy_from(self.grid(), self.names(), threshold as int, n as int) =~= views(out@));
        out
    }

    /// Column `j` is a fission candidate: its total is over the default
    /// threshold.
    pub open spec fn is_fission(&self, j: int) -> bool {
        col_sum(self.grid(), j) > fission_threshold(self.rows())
    }

    /// Column `j` belongs to a fusion cluster: another column holds the same
    /// vector.
    pub open spec fn in_cluster(&self, j: int) -> bool {
        has_twin(self.grid(), j, self.cols())
    }

    /// The group column `j` is laid out in: fission candidates (0), then
    /// fusion cluster members (1), then the remaining columns (2).
    pub open spec fn column_group(&self, j: int) -> int {
        if self.is_fission(j) {
            0
        } else if self.in_cluster(j) {
            1
        } else {
            2
        }
    }

    /// The sort key of column `j`: fission candidates first, by descending
    /// total; then fusion cluster members; then the rest. Within a group,
    /// columns go by their cluster's name (a column's own name when it has
    /// no twin), then by their own name.
    pub open spec fn column_key(&self, j: int) -> KeyView {
        let g = self.grid();
        (
            self.is_fission(j),
            if self.is_fission(j) {
                col_sum(g, j) as usize
            } else if self.in_cluster(j) {
                1usize
            } else {
                0usize
            },
            self.names()[last_twin(g, j, self.cols())],
            self.names()[j],
        )
    }

    pub open spec fn column_keys(&self) -> Seq<KeyView> {
        Seq::new(self.cols() as nat, |j: int| self.column_key(j))
    }

    fn last_twin_exec(&self, j: usize) -> (r: usize)
        requires
            self.wf(),
            j < self.cols(),
        ensures
            r == last_twin(self.grid(), j as int, self.cols()),
    {
        let mut upto = self.components.len();
        while upto > 0
            invariant
                self.wf(),
                j < self.cols(),
                upto <= self.cols(),
                last_twin(self.grid(), j as int, self.cols()) == last_twin(
                    self.grid(),
                    j as int,
                    upto as int,
                ),
            decreases upto,
        {
            if self.columns_identical(j, upto - 1) {
                return upto - 1;
            }
            upto = upto - 1;
        }
        j
    }

    fn has_twin_exec(&self, j: usize) -> (r: bool)
        requires
            self.wf(),
            j < self.cols(),
        ensures
            r == self.in_cluster(j as int),
    {
        let cols = self.components.len();
        let mut k: usize = 0;
        while k < cols
            invariant
                self.wf(),
                j < self.cols(),
                cols == self.cols(),
                k <= cols,
                forall|t: int| 0 <= t < k && t != j ==> !#[trigger] identical(self.grid(), j as int, t),
            decreases cols - k,
        {
            if k != j && self.columns_identical(j, k) {
                return true;
            }
            k = k + 1;
        }
        false
    }

    /// Reorders the component columns: fission candidates (column total over
    /// the default threshold) first, by descending total; then the members
    /// of fusion clusters (columns another column duplicates), a cluster's
    /// columns together; then the remaining columns in name order. Rows stay
    /// as they are.
    pub fn reorder_columns_fusion_fission(&mut self)
        requires
            old(self).wf(),
        ensures
            final(self).wf(),
            final(self).stressor_ids@ == old(self).stressor_ids@,
            final(self).attractor_ids@ == old(self).attractor_ids@,
            old(self).cols() == 0 ==> final(self).components@ == old(self).components@
                && final(self).cells@ == old(self).cells@,
            forall|r: int|
                0 <= r < old(self).rows() ==> #[trigger] row_sum(final(self).grid()[r]) == row_sum(
                    old(self).grid()[r],
                ),
            grid_sum(final(self).grid()) == grid_sum(old(self).grid()),
            exists|p: Seq<usize>|
                {
                    &&& is_perm(p, old(self).cols())
                    &&& in_key_order(old(self).column_keys(), p)
                    &&& final(self).names() == p.map_values(|i: usize| old(self).names()[i as int])
                    &&& forall|r: int, k: int|
                        0 <= r < old(self).rows() && 0 <= k < old(self).cols()
                            ==> #[trigger] final(self).grid()[r][k] == old(self).grid()[r][p[k] as int]
                    &&& forall|a: int, b: int|
                        0 <= a < b < old(self).cols() ==> old(self).column_group(#[trigger] p[a] as int)
                            <= old(self).column_group(#[trigger] p[b] as int)
                    &&& forall|a: int, b: int|
                        0 <= a < b < old(self).cols() && old(self).column_group(#[trigger] p[a] as int) == 0
                            && old(self).column_group(#[trigger] p[b] as int) == 0 ==> col_sum(
                            old(self).grid(),
                            p[a] as int,
                        ) >= col_sum(old(self).grid(), p[b] as int)
                    &&& forall|a: int, b: int, c: int|
                        0 <= a < b < c < old(self).cols() && old(self).column_group(p[a] as int) == 1
                            && #[trigger] identical(old(self).grid(), p[a] as int, p[c] as int) ==> #[trigger] identical(
                            old(self).grid(),
                            p[a] as int,
                            p[b] as int,
                        )
                    &&& forall|a: int, b: int|
                        0 <= a < b < old(self).cols() && old(self).column_group(#[trigger] p[a] as int) == 2
                            && old(self).column_group(#[trigger] p[b] as int) == 2 ==> seq_less(
                            old(self).names()[p[a] as int],
                            old(self).names()[p[b] as int],
                        )
                },
    {
        let cols = self.components.len();
        if cols == 0 {
            assert(Seq::<usize>::empty().map_values(|i: usize| old(self).names()[i as int])
                =~= final(self).names());
            assert(is_perm(Seq::<usize>::empty(), 0));
            return;
        }
        let rows = self.stressor_ids.len();
        let totals = self.col_totals();
        let threshold: usize = default_fission_threshold(rows);
        let mut keys: Vec<SortKey> = Vec::new();
        let mut j: usize = 0;
        assert(key_views(keys@) =~= Seq::new(0, |b: int| self.column_key(b)));
        while j < cols
            invariant
                self.wf(),
                cols == self.cols(),
                rows == self.rows(),
                threshold == fission_threshold(rows as int),
                totals@.len() == cols,
                forall|b: int| 0 <= b < cols ==> #[trigger] totals@[b] == col_sum(self.grid(), b),
                j <= cols,
                keys@.len() == j,
                key_views(keys@) == Seq::new(j as nat, |b: int| self.column_key(b)),
            decreases cols - j,
        {
            let twin = self.last_twin_exec(j);
            proof {
                lemma_last_twin_range(self.grid(), j as int, cols as int);
            }
            let twinned = self.has_twin_exec(j);
            let fission = totals[j] > threshold;
            let key = SortKey {
                first: fission,
                count: if fission {
                    totals[j]
                } else if twinned {
                    1
                } else {
                    0
                },
                major: chars_of(self.components[twin].as_str()),
                minor: chars_of(self.components[j].as_str()),
            };
            let ghost old_keys = keys@;
            keys.push(key);
            assert(self.names()[twin as int] == self.components@[twin as int]@);
            assert(self.names()[j as int] == self.components@[j as int]@);
            assert(key_views(keys@)[j as int] == self.column_key(j as int));
            assert forall|b: int| 0 <= b < j implies key_views(keys@)[b] == self.column_key(b) by {
                assert(keys@[b] == old_keys[b]);
                assert(key_views(old_keys)[b] == self.column_key(b));
            }
            assert(key_views(keys@) =~= Seq::new((j + 1) as nat, |b: int| self.column_key(b)));
            j = j + 1;
        }
        let order = sorted_order(&keys);
        assert(key_views(keys@) =~= self.column_keys());
        let mut comps: Vec<String> = Vec::new();
        let mut k: usize = 0;
        while k < cols
            invariant
                self.wf(),
                cols == self.cols(),
                is_perm(order@, cols as int),
                k <= cols,
                views(comps@) == order@.take(k as int).map_values(|i: usize| self.names()[i as int]),
            decreases cols - k,
        {
            let ghost old_c = comps@;
            comps.push(self.components[order[k]].clone());
            assert(self.names()[order@[k as int] as int] == self.components@[order@[k as int] as int]@);
            assert(views(comps@) =~= views(old_c).push(self.names()[order@[k as int] as int]));
            assert(views(comps@) =~= order@.take(k + 1).map_values(
                |i: usize| self.names()[i as int],
            ));
            k = k + 1;
        }
        assert(order@.take(cols as int) =~= order@);
        let mut cells: Vec<Vec<u8>> = Vec::new();
        let mut r: usize = 0;
        while r < rows
            invariant
                self.wf(),
                cols == self.cols(),
                rows == self.rows(),
                is_perm(order@, cols as int),
                r <= rows,
                cells@.len() == r,
                forall|a: int| 0 <= a < r ==> #[trigger] cells@[a]@.len() == cols,
                forall|a: int, b: int|
                    0 <= a < r && 0 <= b < cols ==> #[trigger] cells@[a]@[b] == self.grid()[a][order@[b] as int],
            decreases rows - r,
        {
            let mut row: Vec<u8> = Vec::new();
            let mut b: usize = 0;
            assert(self.grid()[r as int] == self.cells@[r as int]@);
            while b < cols
                invariant
                    self.wf(),
                    cols == self.cols(),
                    rows == self.rows(),
                    r < rows,
                    is_perm(order@, cols as int),
                    self.grid()[r as int] == self.cells@[r as int]@,
                    b <= cols,
                    row@.len() == b,
                    forall|t: int| 0 <= t < b ==> #[trigger] row@[t] == self.grid()[r as int][order@[t] as int],
                decreases cols - b,
            {
                row.push(self.cells[r][order[b]]);
                b = b + 1;
            }
            cells.push(row);
            r = r + 1;
        }
        let ghost prev = *self;
        self.components = comps;
        self.cells = cells;
        proof {
            assert forall|a: int| 0 <= a < self.rows() implies #[trigger] self.grid()[a].len() == self.cols() by {
                assert(self.grid()[a] == self.cells@[a]@);
            }
            assert forall|a: int, b: int|
                0 <= a < self.rows() && 0 <= b < self.cols() implies #[trigger] self.grid()[a][b]
                == prev.grid()[a][order@[b] as int] by {
                assert(self.grid()[a] == self.cells@[a]@);
            }
            assert forall|a: int, b: int|
                0 <= a < self.rows() && 0 <= b < self.cols() implies #[trigger] self.grid()[a][b] <= 1 by {
                assert(self.grid()[a][b] == prev.grid()[a][order@[b] as int]);
            }
            assert forall|a: int, b: int|
                0 <= a < self.cols() && 0 <= b < self.cols() && a != b implies self.names()[a]
                != self.names()[b] by {
                assert(self.names()[a] == prev.names()[order@[a] as int]);
                assert(self.names()[b] == prev.names()[order@[b] as int]);
            }
            assert forall|a: int| 0 <= a < prev.rows() implies #[trigger] prev.grid()[a].len()
                == prev.cols() by {}
            lemma_permuted_columns_keep_totals(prev.grid(), self.grid(), order@, cols as int);
            assert forall|a: int, b: int| 0 <= a < b < cols implies prev.column_group(#[trigger] order@[a] as int)
                <= prev.column_group(#[trigger] order@[b] as int) by {
                assert(precedes(prev.column_keys(), order@[a] as int, order@[b] as int));
            }
            assert forall|a: int, b: int|
                0 <= a < b < cols && prev.column_group(#[trigger] order@[a] as int) == 0
                    && prev.column_group(#[trigger] order@[b] as int) == 0 implies col_sum(
                prev.grid(),
                order@[a] as int,
            ) >= col_sum(prev.grid(), order@[b] as int) by {
                assert(precedes(prev.column_keys(), order@[a] as int, order@[b] as int));
                lemma_col_sum_bound(prev.grid(), order@[a] as int);
                lemma_col_sum_bound(prev.grid(), order@[b] as int);
            }
            assert forall|a: int, b: int|
                0 <= a < b < cols && prev.column_group(#[trigger] order@[a] as int) == 2
                    && prev.column_group(#[trigger] order@[b] as int) == 2 implies seq_less(
                prev.names()[order@[a] as int],
                prev.names()[order@[b] as int],
            ) by {
                let x = order@[a] as int;
                let y = order@[b] as int;
                assert(precedes(prev.column_keys(), x, y));
                assert(!prev.in_cluster(x));
                assert(!prev.in_cluster(y));
                assert forall|k: int| 0 <= k < cols && k != x implies !#[trigger] identical(prev.grid(), x, k) by {
                    if identical(prev.grid(), x, k) {
                        assert(has_twin(prev.grid(), x, cols as int));
                    }
                }
                assert forall|k: int| 0 <= k < cols && k != y implies !#[trigger] identical(prev.grid(), y, k) by {
                    if identical(prev.grid(), y, k) {
                        assert(has_twin(prev.grid(), y, cols as int));
                    }
                }
                lemma_last_twin_alone(prev.grid(), x, cols as int);
                lemma_last_twin_alone(prev.grid(), y, cols as int);
                assert(x != y);
                assert(prev.names()[x] != prev.names()[y]);
            }
            assert forall|a: int, b: int, c: int|
                0 <= a < b < c < cols && prev.column_group(order@[a] as int) == 1
                    && #[trigger] identical(prev.grid(), order@[a] as int, order@[c] as int) implies #[trigger] identical(
                prev.grid(),
                order@[a] as int,
                order@[b] as int,
            ) by {
                let g = prev.grid();
                let n = cols as int;
                let x = order@[a] as int;
                let y = order@[b] as int;
                let z = order@[c] as int;
                let ks = prev.column_keys();
                assert(precedes(ks, x, y));
                assert(precedes(ks, y, z));
                assert(precedes(ks, x, z));
                assert(prev.column_group(x) <= prev.column_group(y) <= prev.column_group(z));
                lemma_last_twin_same(g, x, z, n);
                assert(ks[x] == prev.column_key(x));
                assert(ks[y] == prev.column_key(y));
                assert(ks[z] == prev.column_key(z));
                let mx = prev.names()[last_twin(g, x, n)];
                let my = prev.names()[last_twin(g, y, n)];
                if prev.column_group(z) == 1 {
                    assert(prev.column_group(y) == 1);
                    if mx != my {
                        assert(seq_less(mx, my));
                        assert(seq_less(my, mx));
                        lemma_seq_less_asymmetric(mx, my);
                    }
                    lemma_last_twin_range(g, x, n);
                    lemma_last_twin_range(g, y, n);
                    assert(last_twin(g, x, n) == last_twin(g, y, n));
                    lemma_last_twin_identical(g, x, n);
                    lemma_last_twin_identical(g, y, n);
                    let t = last_twin(g, x, n);
                    assert forall|r: int| 0 <= r < g.len() implies #[trigger] g[r][x] == g[r][y] by {
                        assert(g[r][x] == g[r][t]);
                        assert(g[r][y] == g[r][t]);
                    }
                } else {
                    assert(has_twin(g, x, n));
                    assert(identical(g, z, x)) by {
                        assert forall|r: int| 0 <= r < g.len() implies #[trigger] g[r][z] == g[r][x] by {
                            assert(g[r][x] == g[r][z]);
                        }
                    }
                    assert(has_twin(g, z, n));
                    lemma_identical_col_sum(g, x, z);
                    assert(col_sum(g, x) == col_sum(g, z));
                }
            }
        }
    }
}

/// The non-empty trimmed pieces, in order.
pub open spec fn trimmed_nonempty(pieces: Seq<Seq<char>>) -> Seq<Seq<char>>
    decreases pieces.len(),
{
    if pieces.len() == 0 {
        Seq::<Seq<char>>::empty()
    } else {
        let prev = trimmed_nonempty(pieces.drop_last());
        let t = trim(pieces.last());
        if t.len() > 0 {
            prev.push(t)
        } else {
            prev
        }
    }
}

/// The search terms of a list of filters: each filter split at commas, the
/// pieces trimmed, empty ones dropped.
pub open spec fn needles(filters: Seq<Seq<char>>) -> Seq<Seq<char>> {
    trimmed_nonempty(filters.flat_map(|f: Seq<char>| split(f, ',')))
}

/// A stressor answers a search term: its attractor id or id equals it
/// (ASCII case-insensitively), or its shortname contains it (after
/// lower-casing both).
pub open spec fn answers(s: Stressor, shortnames: Seq<(Seq<char>, Seq<char>)>, n: Seq<char>) -> bool {
    ||| eq_ignore_ascii(s.attractor_id@, n)
    ||| eq_ignore_ascii(s.id@, n)
    ||| match lookup(shortnames, s.id@) {
        Some(sn) => has_infix(lowercase(sn), lowercase(n)),
        None => false,
    }
}

/// The rule a filtered stressor meets: it answers some search term.
pub open spec fn filter_rule(shortnames: Seq<(Seq<char>, Seq<char>)>, ns: Seq<Seq<char>>) -> spec_fn(
    Stressor,
) -> bool {
    |s: Stressor| exists|k: int| 0 <= k < ns.len() && answers(s, shortnames, #[trigger] ns[k])
}

fn answers_exec(s: &Stressor, shortnames: &NameMap, n: &String) -> (r: bool)
    ensures
        r == answers(*s, shortnames@, n@),
{
    let n_lower = to_lower(n.as_str());
    if eq_ignore_ascii_case_str(s.attractor_id.as_str(), n.as_str()) {
        return true;
    }
    if eq_ignore_ascii_case_str(s.id.as_str(), n.as_str()) {
        return true;
    }
    match shortnames.get(&s.id) {
        Some(sn) => {
            let sn_lower = to_lower(sn.as_str());
            if contains_str(sn_lower.as_str(), n_lower.as_str()) {
                return true;
            }
        },
        None => {},
    }
    false
}

fn search_terms(filters: &[String]) -> (r: Vec<String>)
    ensures
        views(r@) == needles(views(filters@)),
{
    let ghost fv = views(filters@);
    let ghost f = |x: Seq<char>| split(x, ',');
    let mut out: Vec<String> = Vec::new();
    let mut i: usize = 0;
    assert(fv.take(0).flat_map(f) =~= Seq::<Seq<char>>::empty());
    while i < filters.len()
        invariant
            i <= filters@.len(),
            fv == views(filters@),
            f == (|x: Seq<char>| split(x, ',')),
            views(out@) == trimmed_nonempty(fv.take(i as int).flat_map(f)),
        decreases filters@.len() - i,
    {
        let pieces = split_str(filters[i].as_str(), ',');
        let ghost base = fv.take(i as int).flat_map(f);
        let mut j: usize = 0;
        assert(base + views(pieces@).take(0) =~= base);
        while j < pieces.len()
            invariant
                j <= pieces@.len(),
                views(pieces@) == split(filters@[i as int]@, ','),
                views(out@) == trimmed_nonempty(base + views(pieces@).take(j as int)),
            decreases pieces@.len() - j,
        {
            let ghost pre = base + views(pieces@).take(j as int);
            assert((base + views(pieces@).take(j + 1)).drop_last() =~= pre);
            assert((base + views(pieces@).take(j + 1)).last() == pieces@[j as int]@);
            let t = trim_str(pieces[j].as_str());
            if t.as_str().unicode_len() > 0 {
                let ghost old_out = views(out@);
                out.push(t);
                assert(views(out@) =~= old_out.push(trim(pieces@[j as int]@)));
            }
            j = j + 1;
        }
        proof {
            assert(views(pieces@).take(pieces@.len() as int) =~= views(pieces@));
            assert(fv.take(i + 1) =~= fv.take(i as int).push(fv[i as int]));
            fv.take(i as int).lemma_flat_map_push(f, fv[i as int]);
            assert(fv[i as int] == filters@[i as int]@);
        }
        i = i + 1;
    }
    assert(fv.take(filters@.len() as int) =~= fv);
    out
}

/// Filters stressors by attractor id, stressor id, shortname or description
/// (see `answers`). No search terms keeps every stressor.
pub fn filter_stressors(stressors: &[Stressor], filters: &[String], shortnames: &NameMap) -> (r: Vec<
    Stressor,
>)
    ensures
        needles(views(filters@)).len() == 0 ==> r@ == stressors@,
        needles(views(filters@)).len() > 0 ==> r@ == stressors@.filter(
            filter_rule(shortnames@, needles(views(filters@))),
        ),
        forall|k: int, n: Seq<char>|
            0 <= k < stressors@.len() && #[trigger] needles(views(filters@)).contains(n) && (eq_ignore_ascii(
                stressors@[k].id@,
                n,
            ) || eq_ignore_ascii(stressors@[k].attractor_id@, n) || (lookup(shortnames@, stressors@[k].id@) matches Some(
                sn,
            ) && has_infix(lowercase(sn), lowercase(n)))) ==> r@.contains(#[trigger] stressors@[k]),
        forall|x: Stressor| #[trigger] r@.contains(x) ==> stressors@.contains(x),
{
    let ns = search_terms(filters);
    let mut out: Vec<Stressor> = Vec::new();
    let ghost rule = filter_rule(shortnames@, needles(views(filters@)));
    let none = ns.len() == 0;
    let mut i: usize = 0;
    assert(stressors@.take(0) =~= Seq::<Stressor>::empty());
    proof {
        reveal_with_fuel(Seq::filter, 1);
    }
    assert(stressors@.take(0).filter(rule) =~= Seq::<Stressor>::empty());
    while i < stressors.len()
        invariant
            i <= stressors@.len(),
            views(ns@) == needles(views(filters@)),
            none == (ns@.len() == 0),
            rule == filter_rule(shortnames@, needles(views(filters@))),
            none ==> out@ == stressors@.take(i as int),
            !none ==> out@ == stressors@.take(i as int).filter(rule),
        decreases stressors@.len() - i,
    {
        let keep = if none {
            true
        } else {
            let mut hit = false;
            let mut k: usize = 0;
            while k < ns.len()
                invariant
                    k <= ns@.len(),
                    i < stressors@.len(),
                    views(ns@) == needles(views(filters@)),
                    hit == exists|t: int| 0 <= t < k && answers(stressors@[i as int], shortnames@, #[trigger] views(ns@)[t]),
                decreases ns@.len() - k,
            {
                let a = answers_exec(&stressors[i], shortnames, &ns[k]);
                assert(views(ns@)[k as int] == ns@[k as int]@);
                if a {
                    hit = true;
                }
                k = k + 1;
            }
            hit
        };
        proof {
            reveal_with_fuel(Seq::filter, 1);
            assert(stressors@.take(i + 1).drop_last() =~= stressors@.take(i as int));
            assert(stressors@.take(i + 1).last() == stressors@[i as int]);
        }
        if keep {
            out.push(stressors[i].clone());
        }
        i = i + 1;
        assert(none ==> out@ =~= stressors@.take(i as int));
    }
    assert(stressors@.take(stressors@.len() as int) =~= stressors@);
    proof {
        let ns_v = needles(views(filters@));
        assert forall|k: int, n: Seq<char>|
            0 <= k < stressors@.len() && #[trigger] ns_v.contains(n) && (eq_ignore_ascii(stressors@[k].id@, n)
                || eq_ignore_ascii(stressors@[k].attractor_id@, n) || (lookup(shortnames@, stressors@[k].id@) matches Some(
                sn,
            ) && has_infix(lowercase(sn), lowercase(n)))) implies out@.contains(#[trigger] stressors@[k]) by {
            lemma_filter_keeps_id_matches(stressors@, shortnames@, ns_v, k, n);
            if ns_v.len() == 0 {
                assert(out@[k] == stressors@[k]);
            }
        }
        assert forall|x: Stressor| #[trigger] out@.contains(x) implies stressors@.contains(x) by {
            if !none {
                stressors@.lemma_filter_contains_rev(rule, x);
            }
        }
    }
    out
}

/// A filter keeps every stressor whose id or attractor id equals one of the
/// search terms, ignoring ASCII case, or whose shortname contains the term
/// (both lower-cased): the stressor is in the filtered rows.
pub proof fn lemma_filter_keeps_id_matches(
    stressors: Seq<Stressor>,
    shortnames: Seq<(Seq<char>, Seq<char>)>,
    ns: Seq<Seq<char>>,
    k: int,
    n: Seq<char>,
)
    requires
        0 <= k < stressors.len(),
        ns.contains(n),
        eq_ignore_ascii(stressors[k].id@, n) || eq_ignore_ascii(stressors[k].attractor_id@, n) || (lookup(
            shortnames,
            stressors[k].id@,
        ) matches Some(sn) && has_infix(lowercase(sn), lowercase(n))),
    ensures
        stressors.filter(filter_rule(shortnames, ns)).contains(stressors[k]),
{
    let t = choose|t: int| 0 <= t < ns.len() && ns[t] == n;
    assert(answers(stressors[k], shortnames, ns[t]));
    assert(filter_rule(shortnames, ns)(stressors[k]));
    stressors.lemma_filter_contains(filter_rule(shortnames, ns), k);
}

/// A search term equal to a stressor's id keeps that stressor.
pub proof fn lemma_filter_keeps_exact_id(
    stressors: Seq<Stressor>,
    shortnames: Seq<(Seq<char>, Seq<char>)>,
    ns: Seq<Seq<char>>,
    k: int,
)
    requires
        0 <= k < stressors.len(),
        ns.contains(stressors[k].id@),
    ensures
        stressors.filter(filter_rule(shortnames, ns)).contains(stressors[k]),
{
    assert(eq_ignore_ascii(stressors[k].id@, stressors[k].id@));
    lemma_filter_keeps_id_matches(stressors, shortnames, ns, k, stressors[k].id@);
}

/// The text a stressor is alphabetised by: its shortname, else its id.
pub open spec fn shortname_or_id(s: Stressor, shortnames: Seq<(Seq<char>, Seq<char>)>) -> Seq<char> {
    match lookup(shortnames, s.id@) {
        Some(sn) => sn,
        None => s.id@,
    }
}

/// The sort key of a stressor under a row order.
pub open spec fn stressor_key(
    s: Stressor,
    sort_by: MatrixSortBy,
    shortnames: Seq<(Seq<char>, Seq<char>)>,
) -> KeyView {
    match sort_by {
        MatrixSortBy::Attractor | MatrixSortBy::FusionFission => (
            false,
            0usize,
            s.attractor_id@,
            s.id@,
        ),
        MatrixSortBy::Id => (false, 0usize, s.id@, Seq::<char>::empty()),
        MatrixSortBy::Alphabetical => (
            false,
            0usize,
            lowercase(shortname_or_id(s, shortnames)),
            s.id@,
        ),
    }
}

pub open spec fn stressor_keys(
    stressors: Seq<Stressor>,
    sort_by: MatrixSortBy,
    shortnames: Seq<(Seq<char>, Seq<char>)>,
) -> Seq<KeyView> {
    stressors.map_values(|s: Stressor| stressor_key(s, sort_by, shortnames))
}

/// Sorts stressors for `matrix show`, stably: by attractor then id
/// (`Attractor`, `FusionFission`), by id (`Id`), or by lower-cased shortname
/// (or id) then id (`Alphabetical`).
pub fn sort_stressors(stressors: Vec<Stressor>, sort_by: MatrixSortBy, shortnames: &NameMap) -> (r:
    Vec<Stressor>)
    ensures
        exists|p: Seq<usize>|
            {
                &&& is_perm(p, stressors@.len() as int)
                &&& in_key_order(stressor_keys(stressors@, sort_by, shortnames@), p)
                &&& r@ == p.map_values(|i: usize| stressors@[i as int])
            },
        r@.len() == stressors@.len(),
        sort_by == MatrixSortBy::Id ==> forall|a: int, b: int|
            0 <= a < b < r@.len() ==> !seq_less(#[trigger] r@[b].id@, #[trigger] r@[a].id@),
        (sort_by == MatrixSortBy::Attractor || sort_by == MatrixSortBy::FusionFission) ==> forall|a: int, b: int|
            0 <= a < b < r@.len() ==> !seq_less(#[trigger] r@[b].attractor_id@, #[trigger] r@[a].attractor_id@)
                && (r@[a].attractor_id@ == r@[b].attractor_id@ ==> !seq_less(r@[b].id@, r@[a].id@)),
        sort_by == MatrixSortBy::Alphabetical ==> forall|a: int, b: int|
            0 <= a < b < r@.len() ==> !seq_less(
                lowercase(shortname_or_id(#[trigger] r@[b], shortnames@)),
                lowercase(shortname_or_id(#[trigger] r@[a], shortnames@)),
            ) && (lowercase(shortname_or_id(r@[a], shortnames@)) == lowercase(
                shortname_or_id(r@[b], shortnames@),
            ) ==> !seq_less(r@[b].id@, r@[a].id@)),
{
    let n = stressors.len();
    let mut keys: Vec<SortKey> = Vec::new();
    let mut i: usize = 0;
    while i < n
        invariant
            n == stressors@.len(),
            i <= n,
            keys@.len() == i,
            forall|b: int| 0 <= b < i ==> #[trigger] key_view(keys@[b]) == stressor_key(stressors@[b], sort_by, shortnames@),
        decreases n - i,
    {
        let s = &stressors[i];
        let key = match sort_by {
            MatrixSortBy::Attractor | MatrixSortBy::FusionFission => SortKey {
                first: false,
                count: 0,
                major: chars_of(s.attractor_id.as_str()),
                minor: chars_of(s.id.as_str()),
            },
            MatrixSortBy::Id => SortKey {
                first: false,
                count: 0,
                major: chars_of(s.id.as_str()),
                minor: Vec::new(),
            },
            MatrixSortBy::Alphabetical => {
                let label = shortnames.get_or_key(&s.id);
                let lowered = to_lower(label.as_str());
                SortKey {
                    first: false,
                    count: 0,
                    major: chars_of(lowered.as_str()),
                    minor: chars_of(s.id.as_str()),
                }
            },
        };
        assert(key_view(key) == stressor_key(stressors@[i as int], sort_by, shortnames@)) by {
            if sort_by == MatrixSortBy::Id {
                assert(key.minor@ =~= Seq::<char>::empty());
            }
        }
        keys.push(key);
        i = i + 1;
    }
    assert(key_views(keys@) =~= stressor_keys(stressors@, sort_by, shortnames@)) by {
        assert forall|b: int| 0 <= b < n implies key_views(keys@)[b] == stressor_keys(stressors@, sort_by, shortnames@)[b] by {
            assert(key_view(keys@[b]) == stressor_key(stressors@[b], sort_by, shortnames@));
        }
    }
    let order = sorted_order(&keys);
    let mut out: Vec<Stressor> = Vec::new();
    let mut k: usize = 0;
    while k < n
        invariant
            n == stressors@.len(),
            is_perm(order@, n as int),
            k <= n,
            out@ == order@.take(k as int).map_values(|i: usize| stressors@[i as int]),
        decreases n - k,
    {
        out.push(stressors[order[k]].clone());
        assert(out@ =~= order@.take(k + 1).map_values(|i: usize| stressors@[i as int]));
        k = k + 1;
    }
    assert(order@.take(n as int) =~= order@);
    proof {
        if sort_by == MatrixSortBy::Id {
            lemma_sorted_by_id(stressors@, shortnames@, order@);
        }
        if sort_by == MatrixSortBy::Attractor || sort_by == MatrixSortBy::FusionFission {
            lemma_sorted_by_attractor(stressors@, sort_by, shortnames@, order@);
        }
        if sort_by == MatrixSortBy::Alphabetical {
            lemma_sorted_alphabetically(stressors@, shortnames@, order@);
        }
    }
    out
}

/// Rows laid out in `Id` key order are in stressor-id order: no later id
/// sorts before an earlier one.
pub proof fn lemma_sorted_by_id(stressors: Seq<Stressor>, shortnames: Seq<(Seq<char>, Seq<char>)>, p: Seq<usize>)
    requires
        is_perm(p, stressors.len() as int),
        in_key_order(stressor_keys(stressors, MatrixSortBy::Id, shortnames), p),
    ensures
        forall|a: int, b: int|
            0 <= a < b < p.len() ==> !seq_less(
                #[trigger] stressors[p[b] as int].id@,
                #[trigger] stressors[p[a] as int].id@,
            ),
{
    let keys = stressor_keys(stressors, MatrixSortBy::Id, shortnames);
    assert forall|a: int, b: int| 0 <= a < b < p.len() implies !seq_less(
        #[trigger] stressors[p[b] as int].id@,
        #[trigger] stressors[p[a] as int].id@,
    ) by {
        let x = p[a] as int;
        let y = p[b] as int;
        assert(precedes(keys, x, y));
        assert(keys[x] == stressor_key(stressors[x], MatrixSortBy::Id, shortnames));
        assert(keys[y] == stressor_key(stressors[y], MatrixSortBy::Id, shortnames));
        lemma_seq_less_asymmetric(stressors[x].id@, stressors[y].id@);
        lemma_seq_less_irreflexive(stressors[x].id@);
        lemma_seq_less_irreflexive(Seq::<char>::empty());
    }
}

/// Rows laid out in `Attractor` (or `FusionFission`) key order go by
/// attractor id, and by stressor id within one attractor.
pub proof fn lemma_sorted_by_attractor(
    stressors: Seq<Stressor>,
    sort_by: MatrixSortBy,
    shortnames: Seq<(Seq<char>, Seq<char>)>,
    p: Seq<usize>,
)
    requires
        sort_by == MatrixSortBy::Attractor || sort_by == MatrixSortBy::FusionFission,
        is_perm(p, stressors.len() as int),
        in_key_order(stressor_keys(stressors, sort_by, shortnames), p),
    ensures
        forall|a: int, b: int|
            0 <= a < b < p.len() ==> !seq_less(
                #[trigger] stressors[p[b] as int].attractor_id@,
                #[trigger] stressors[p[a] as int].attractor_id@,
            ) && (stressors[p[a] as int].attractor_id@ == stressors[p[b] as int].attractor_id@ ==> !seq_less(
                stressors[p[b] as int].id@,
                stressors[p[a] as int].id@,
            )),
{
    let keys = stressor_keys(stressors, sort_by, shortnames);
    assert forall|a: int, b: int| 0 <= a < b < p.len() implies !seq_less(
        #[trigger] stressors[p[b] as int].attractor_id@,
        #[trigger] stressors[p[a] as int].attractor_id@,
    ) && (stressors[p[a] as int].attractor_id@ == stressors[p[b] as int].attractor_id@ ==> !seq_less(
        stressors[p[b] as int].id@,
        stressors[p[a] as int].id@,
    )) by {
        let x = p[a] as int;
        let y = p[b] as int;
        assert(precedes(keys, x, y));
        assert(keys[x] == stressor_key(stressors[x], sort_by, shortnames));
        assert(keys[y] == stressor_key(stressors[y], sort_by, shortnames));
        lemma_seq_less_asymmetric(stressors[x].attractor_id@, stressors[y].attractor_id@);
        lemma_seq_less_irreflexive(stressors[x].attractor_id@);
        lemma_seq_less_asymmetric(stressors[x].id@, stressors[y].id@);
        lemma_seq_less_irreflexive(stressors[x].id@);
    }
}

/// Rows laid out in `Alphabetical` key order go by lower-cased shortname
/// (the id where there is none), and by id among equal names.
pub proof fn lemma_sorted_alphabetically(
    stressors: Seq<Stressor>,
    shortnames: Seq<(Seq<char>, Seq<char>)>,
    p: Seq<usize>,
)
    requires
        is_perm(p, stressors.len() as int),
        in_key_order(stressor_keys(stressors, MatrixSortBy::Alphabetical, shortnames), p),
    ensures
        forall|a: int, b: int|
            0 <= a < b < p.len() ==> !seq_less(
                lowercase(shortname_or_id(#[trigger] stressors[p[b] as int], shortnames)),
                lowercase(shortname_or_id(#[trigger] stressors[p[a] as int], shortnames)),
            ) && (lowercase(shortname_or_id(stressors[p[a] as int], shortnames)) == lowercase(
                shortname_or_id(stressors[p[b] as int], shortnames),
            ) ==> !seq_less(stressors[p[b] as int].id@, stressors[p[a] as int].id@)),
{
    let keys = stressor_keys(stressors, MatrixSortBy::Alphabetical, shortnames);
    assert forall|a: int, b: int| 0 <= a < b < p.len() implies !seq_less(
        lowercase(shortname_or_id(#[trigger] stressors[p[b] as int], shortnames)),
        lowercase(shortname_or_id(#[trigger] stressors[p[a] as int], shortnames)),
    ) && (lowercase(shortname_or_id(stressors[p[a] as int], shortnames)) == lowercase(
        shortname_or_id(stressors[p[b] as int], shortnames),
    ) ==> !seq_less(stressors[p[b] as int].id@, stressors[p[a] as int].id@)) by {
        let x = p[a] as int;
        let y = p[b] as int;
        let lx = lowercase(shortname_or_id(stressors[x], shortnames));
        let ly = lowercase(shortname_or_id(stressors[y], shortnames));
        assert(precedes(keys, x, y));
        assert(keys[x] == stressor_key(stressors[x], MatrixSortBy::Alphabetical, shortnames));
        assert(keys[y] == stressor_key(stressors[y], MatrixSortBy::Alphabetical, shortnames));
        lemma_seq_less_asymmetric(lx, ly);
        lemma_seq_less_irreflexive(lx);
        lemma_seq_less_asymmetric(stressors[x].id@, stressors[y].id@);
        lemma_seq_less_irreflexive(stressors[x].id@);
    }
}

/// One line of the matrix as shown: a section banner, or a data row.
#[derive(Debug)]
pub enum EmitRow {
    /// Section banner (attractor group or fusion/fission annotation).
    Separator(String),
    /// Index into the matrix rows.
    Data(usize),
}

/// What an `EmitRow` holds, as values.
pub enum RowSpec {
    Separator(Seq<char>),
    Data(int),
}

pub open spec fn row_spec(e: EmitRow) -> RowSpec {
    match e {
        EmitRow::Separator(label) => RowSpec::Separator(label@),
        EmitRow::Data(i) => RowSpec::Data(i as int),
    }
}

pub open spec fn row_specs(rows: Seq<EmitRow>) -> Seq<RowSpec> {
    rows.map_values(|e: EmitRow| row_spec(e))
}

/// The banner over an attractor's group: `── A-01 · Name ──`, or
/// `── A-01 ──` when the attractor has no name.
pub open spec fn attractor_banner(aid: Seq<char>, names: Seq<(Seq<char>, Seq<char>)>) -> Seq<char> {
    "── "@ + aid + match lookup(names, aid) {
        Some(n) => " · "@ + n,
        None => Seq::<char>::empty(),
    } + " ──"@
}

/// The data rows from `i` on, a banner before each row whose attractor
/// differs from the one before (`last`).
pub open spec fn group_rows(
    aids: Seq<Seq<char>>,
    names: Seq<(Seq<char>, Seq<char>)>,
    i: int,
    last: Seq<char>,
) -> Seq<RowSpec>
    decreases aids.len() - i,
{
    if i >= aids.len() {
        Seq::<RowSpec>::empty()
    } else if aids[i] != last {
        seq![RowSpec::Separator(attractor_banner(aids[i], names)), RowSpec::Data(i)] + group_rows(
            aids,
            names,
            i + 1,
            aids[i],
        )
    } else {
        seq![RowSpec::Data(i)] + group_rows(aids, names, i + 1, last)
    }
}

pub open spec fn fusion_banner(p: (Seq<char>, Seq<char>)) -> RowSpec {
    RowSpec::Separator("── fusion: "@ + p.0 + " ↔ "@ + p.1 + " ──"@)
}

pub open spec fn fission_banner(c: Seq<char>, threshold: int) -> RowSpec {
    RowSpec::Separator("── fission: "@ + c + " (col > "@ + decimal(threshold as nat) + ") ──"@)
}

pub proof fn lemma_group_rows_range(
    aids: Seq<Seq<char>>,
    names: Seq<(Seq<char>, Seq<char>)>,
    i: int,
    last: Seq<char>,
)
    requires
        0 <= i,
    ensures
        forall|k: int|
            0 <= k < group_rows(aids, names, i, last).len() ==> (#[trigger] group_rows(
                aids,
                names,
                i,
                last,
            )[k] matches RowSpec::Data(d) ==> i <= d < aids.len()),
    decreases aids.len() - i,
{
    if i < aids.len() {
        if aids[i] != last {
            lemma_group_rows_range(aids, names, i + 1, aids[i]);
        } else {
            lemma_group_rows_range(aids, names, i + 1, last);
        }
    }
}

impl NkpMatrix {
    /// Every data row the plan lays out is a row of the matrix.
    pub proof fn lemma_plan_data_in_range(&self, attractor_names: Seq<(Seq<char>, Seq<char>)>)
        requires
            self.wf(),
        ensures
            forall|k: int|
                0 <= k < self.plan(attractor_names).len() ==> (#[trigger] self.plan(
                    attractor_names,
                )[k] matches RowSpec::Data(d) ==> 0 <= d < self.rows()),
    {
        let rows = group_rows(views(self.attractor_ids@), attractor_names, 0, Seq::<char>::empty());
        lemma_group_rows_range(views(self.attractor_ids@), attractor_names, 0, Seq::<char>::empty());
        assert forall|k: int| 0 <= k < self.plan(attractor_names).len() implies (#[trigger] self.plan(
            attractor_names,
        )[k] matches RowSpec::Data(d) ==> 0 <= d < self.rows()) by {
            if k < rows.len() {
                assert(self.plan(attractor_names)[k] == rows[k]);
            }
        }
    }

    /// The fusion pairs as names.
    pub open spec fn fusions(&self) -> Seq<(Seq<char>, Seq<char>)> {
        named_pairs(self.names(), pairs_from(self.cols(), 0, fusion_rule(self.grid())))
    }

    /// The fission candidates under the default threshold.
    pub open spec fn fissions(&self) -> Seq<Seq<char>> {
        heavy_from(self.grid(), self.names(), fission_threshold(self.rows()), 0)
    }

    /// What `emit_plan` lays out: the grouped data rows, then (when there
    /// are any) the fusion and fission annotations.
    pub open spec fn plan(&self, attractor_names: Seq<(Seq<char>, Seq<char>)>) -> Seq<RowSpec> {
        let rows = group_rows(views(self.attractor_ids@), attractor_names, 0, Seq::<char>::empty());
        if self.fusions().len() > 0 || self.fissions().len() > 0 {
            rows + seq![RowSpec::Separator("── fusion / fission ──"@)] + self.fusions().map_values(
                |p: (Seq<char>, Seq<char>)| fusion_banner(p),
            ) + self.fissions().map_values(
                |c: Seq<char>| fission_banner(c, fission_threshold(self.rows())),
            )
        } else {
            rows
        }
    }

    /// The rows in display order, with attractor banners and fusion/fission
    /// annotations. The sort order was applied before the matrix was built.
    pub fn emit_plan(&self, sort_by: MatrixSortBy, attractor_names: &NameMap) -> (r: Vec<EmitRow>)
        requires
            self.wf(),
        ensures
            row_specs(r@) == self.plan(attractor_names@),
    {
        let n = self.stressor_ids.len();
        let ghost aids = views(self.attractor_ids@);
        let mut plan: Vec<EmitRow> = Vec::new();
        let mut last = String::new();
        let mut idx: usize = 0;
        let ghost target = group_rows(aids, attractor_names@, 0, Seq::<char>::empty());
        assert(row_specs(plan@) + group_rows(aids, attractor_names@, 0, last@) =~= target);
        while idx < n
            invariant
                self.wf(),
                n == self.rows(),
                aids == views(self.attractor_ids@),
                idx <= n,
                row_specs(plan@) + group_rows(aids, attractor_names@, idx as int, last@) == target,
            decreases n - idx,
        {
            let aid = &self.attractor_ids[idx];
            assert(aids[idx as int] == aid@);
            let ghost old_plan = row_specs(plan@);
            if *aid != last {
                let mut label = String::from_str("── ");
                label.append(aid.as_str());
                match attractor_names.get(aid) {
                    Some(name) => {
                        label.append(" · ");
                        label.append(name.as_str());
                    },
                    None => {},
                }
                label.append(" ──");
                assert(label@ =~= attractor_banner(aid@, attractor_names@));
                plan.push(EmitRow::Separator(label));
                plan.push(EmitRow::Data(idx));
                assert(row_specs(plan@) =~= old_plan + seq![
                    RowSpec::Separator(attractor_banner(aids[idx as int], attractor_names@)),
                    RowSpec::Data(idx as int),
                ]);
                last = aid.clone();
            } else {
                plan.push(EmitRow::Data(idx));
                assert(row_specs(plan@) =~= old_plan + seq![RowSpec::Data(idx as int)]);
            }
            idx = idx + 1;
        }
        let _ = sort_by;
        let fusions = self.fusion_candidates();
        let threshold: usize = default_fission_threshold(n);
        let fissions = self.fission_candidates(threshold);
        assert(row_specs(plan@) =~= target);
        if fusions.len() > 0 || fissions.len() > 0 {
            plan.push(EmitRow::Separator(String::from_str("── fusion / fission ──")));
            let ghost head = row_specs(plan@);
            let mut a: usize = 0;
            while a < fusions.len()
                invariant
                    a <= fusions@.len(),
                    fusions.deep_view() == self.fusions(),
                    row_specs(plan@) == head + self.fusions().take(a as int).map_values(
                        |p: (Seq<char>, Seq<char>)| fusion_banner(p),
                    ),
                decreases fusions@.len() - a,
            {
                let mut label = String::from_str("── fusion: ");
                label.append(fusions[a].0.as_str());
                label.append(" ↔ ");
                label.append(fusions[a].1.as_str());
                label.append(" ──");
                let ghost old_plan = row_specs(plan@);
                plan.push(EmitRow::Separator(label));
                assert(fusions.deep_view()[a as int] == (fusions@[a as int].0@, fusions@[a as int].1@));
                assert(row_specs(plan@) =~= old_plan.push(fusion_banner(self.fusions()[a as int])));
                a = a + 1;
                assert(row_specs(plan@) =~= head + self.fusions().take(a as int).map_values(
                    |p: (Seq<char>, Seq<char>)| fusion_banner(p),
                ));
            }
            assert(self.fusions().take(fusions@.len() as int) =~= self.fusions());
            let ghost mid = row_specs(plan@);
            let th_text = decimal_string(threshold as u64);
            let mut c: usize = 0;
            while c < fissions.len()
                invariant
                    c <= fissions@.len(),
                    views(fissions@) == self.fissions(),
                    th_text@ == decimal(fission_threshold(self.rows()) as nat),
                    row_specs(plan@) == mid + self.fissions().take(c as int).map_values(
                        |x: Seq<char>| fission_banner(x, fission_threshold(self.rows())),
                    ),
                decreases fissions@.len() - c,
            {
                let mut label = String::from_str("── fission: ");
                label.append(fissions[c].as_str());
                label.append(" (col > ");
                label.append(th_text.as_str());
                label.append(") ──");
                let ghost old_plan = row_specs(plan@);
                plan.push(EmitRow::Separator(label));
                assert(views(fissions@)[c as int] == fissions@[c as int]@);
                assert(row_specs(plan@) =~= old_plan.push(
                    fission_banner(self.fissions()[c as int], fission_threshold(self.rows())),
                ));
                c = c + 1;
                assert(row_specs(plan@) =~= mid + self.fissions().take(c as int).map_values(
                    |x: Seq<char>| fission_banner(x, fission_threshold(self.rows())),
                ));
            }
            assert(self.fissions().take(fissions@.len() as int) =~= self.fissions());
        }
        plan
    }
}

/// `n` empty fields.
pub open spec fn blanks(n: nat) -> Seq<Seq<char>> {
    Seq::new(n, |_i: int| Seq::<char>::empty())
}

/// The cells of a row as decimal fields.
pub open spec fn digit_fields(row: Seq<u8>) -> Seq<Seq<char>> {
    row.map_values(|v: u8| decimal(v as nat))
}

impl NkpMatrix {
    /// A row's label: the stressor's shortname, else its id.
    pub open spec fn row_label(&self, i: int, shortnames: Seq<(Seq<char>, Seq<char>)>) -> Seq<char> {
        match lookup(shortnames, self.stressor_ids@[i]@) {
            Some(sn) => sn,
            None => self.stressor_ids@[i]@,
        }
    }

    /// The CSV record of one laid-out row.
    pub open spec fn record_of(&self, row: RowSpec, shortnames: Seq<(Seq<char>, Seq<char>)>) -> Seq<
        Seq<char>,
    > {
        match row {
            RowSpec::Separator(label) => seq![label] + blanks((self.cols() + 1) as nat),
            RowSpec::Data(i) => seq![self.row_label(i, shortnames)] + digit_fields(self.grid()[i])
                + seq![decimal(row_sum(self.grid()[i]) as nat)],
        }
    }

    /// The records of the CSV view: a header of component names, the
    /// laid-out rows with their totals, and a totals row ending in K.
    pub open spec fn csv_records(
        &self,
        shortnames: Seq<(Seq<char>, Seq<char>)>,
        attractor_names: Seq<(Seq<char>, Seq<char>)>,
    ) -> Seq<Seq<Seq<char>>> {
        seq![seq![Seq::<char>::empty()] + self.names() + seq!["total"@]] + self.plan(
            attractor_names,
        ).map_values(|r: RowSpec| self.record_of(r, shortnames)) + seq![
            seq!["total"@] + Seq::new(
                self.cols() as nat,
                |j: int| decimal(col_sum(self.grid(), j) as nat),
            ) + seq![decimal(grid_sum(self.grid()) as nat)],
        ]
    }

    /// The CSV view, field by field: after the header, one record per
    /// laid-out row; the record of matrix row `i` is its label, its cells
    /// as digits, and the sum of its own cells; the last record holds each
    /// column's sum and then K.
    pub proof fn lemma_csv_fields(
        &self,
        shortnames: Seq<(Seq<char>, Seq<char>)>,
        attractor_names: Seq<(Seq<char>, Seq<char>)>,
    )
        requires
            self.wf(),
        ensures
            self.csv_records(shortnames, attractor_names).len() == self.plan(attractor_names).len() + 2,
            forall|q: int|
                0 <= q < self.plan(attractor_names).len() ==> (#[trigger] self.plan(attractor_names)[q] matches RowSpec::Data(
                    i,
                ) ==> {
                    let rec = self.csv_records(shortnames, attractor_names)[q + 1];
                    &&& rec.len() == self.cols() + 2
                    &&& rec[0] == self.row_label(i, shortnames)
                    &&& forall|c: int| 0 <= c < self.cols() ==> rec[c + 1] == decimal(self.grid()[i][c] as nat)
                    &&& rec[self.cols() + 1] == decimal(row_sum(self.grid()[i]) as nat)
                }),
            ({
                let rec = self.csv_records(shortnames, attractor_names)[self.plan(attractor_names).len() as int + 1];
                &&& rec.len() == self.cols() + 2
                &&& rec[0] == "total"@
                &&& forall|c: int| 0 <= c < self.cols() ==> rec[c + 1] == decimal(col_sum(self.grid(), c) as nat)
                &&& rec[self.cols() + 1] == decimal(grid_sum(self.grid()) as nat)
            }),
    {
        let recs = self.csv_records(shortnames, attractor_names);
        let plan = self.plan(attractor_names);
        self.lemma_plan_data_in_range(attractor_names);
        assert forall|q: int|
            0 <= q < plan.len() implies (#[trigger] plan[q] matches RowSpec::Data(i) ==> {
                let rec = recs[q + 1];
                &&& rec.len() == self.cols() + 2
                &&& rec[0] == self.row_label(i, shortnames)
                &&& forall|c: int| 0 <= c < self.cols() ==> rec[c + 1] == decimal(self.grid()[i][c] as nat)
                &&& rec[self.cols() + 1] == decimal(row_sum(self.grid()[i]) as nat)
            }) by {
            assert(recs[q + 1] == self.record_of(plan[q], shortnames));
            if let RowSpec::Data(i) = plan[q] {
                assert(self.grid()[i].len() == self.cols());
            }
        }
    }

    /// The matrix as CSV bytes (see `csv_records`); always `Some`.
    pub fn write_csv(&self, shortnames: &NameMap, attractor_names: &NameMap, sort_by: MatrixSortBy) -> (r:
        Option<Vec<u8>>)
        requires
            self.wf(),
            self.rows() * self.cols() <= usize::MAX,
        ensures
            r is Some,
            r matches Some(bytes) ==> bytes@ == csv_text(
                self.csv_records(shortnames@, attractor_names@),
            ),
    {
        let row_totals = self.row_totals();
        let col_totals = self.col_totals();
        let grand = self.k();
        let plan = self.emit_plan(sort_by, attractor_names);
        let cols = self.components.len();
        let ghost target = self.csv_records(shortnames@, attractor_names@);
        let mut records: Vec<Vec<String>> = Vec::new();
        let mut header: Vec<String> = Vec::new();
        header.push(String::new());
        let mut j: usize = 0;
        while j < cols
            invariant
                self.wf(),
                cols == self.cols(),
                j <= cols,
                header.deep_view() == seq![Seq::<char>::empty()] + self.names().take(j as int),
            decreases cols - j,
        {
            let ghost old_dv = header.deep_view();
            header.push(self.components[j].clone());
            assert(self.names()[j as int] == self.components@[j as int]@);
            assert(header.deep_view() =~= old_dv.push(self.names()[j as int]));
            j = j + 1;
            assert(header.deep_view() =~= seq![Seq::<char>::empty()] + self.names().take(j as int));
        }
        let ghost old_dv = header.deep_view();
        header.push(String::from_str("total"));
        assert(header.deep_view() =~= old_dv.push("total"@));
        assert(self.names().take(cols as int) =~= self.names());
        assert(header.deep_view() =~= target[0]);
        records.push(header);
        assert(records.deep_view() =~= target.take(1));
        let mut p: usize = 0;
        while p < plan.len()
            invariant
                self.wf(),
                cols == self.cols(),
                row_specs(plan@) == self.plan(attractor_names@),
                forall|i: int| 0 <= i < self.rows() ==> #[trigger] row_totals@[i] == row_sum(self.grid()[i]),
                row_totals@.len() == self.rows(),
                p <= plan@.len(),
                records.deep_view() == target.take(p + 1),
                target == self.csv_records(shortnames@, attractor_names@),
            decreases plan@.len() - p,
        {
            let ghost spec_row = row_specs(plan@)[p as int];
            assert(spec_row == row_spec(plan@[p as int]));
            let mut rec: Vec<String> = Vec::new();
            match &plan[p] {
                EmitRow::Separator(label) => {
                    rec.push(label.clone());
                    assert(rec.deep_view() =~= seq![label@] + blanks(0));
                    let mut b: usize = 0;
                    while b < cols
                        invariant
                            b <= cols,
                            rec.deep_view() == seq![label@] + blanks(b as nat),
                        decreases cols - b,
                    {
                        let ghost old_dv = rec.deep_view();
                        rec.push(String::new());
                        assert(rec.deep_view() =~= old_dv.push(Seq::<char>::empty()));
                        b = b + 1;
                        assert(rec.deep_view() =~= seq![label@] + blanks(b as nat));
                    }
                    let ghost old_dv = rec.deep_view();
                    rec.push(String::new());
                    assert(rec.deep_view() =~= old_dv.push(Seq::<char>::empty()));
                    assert(rec.deep_view() =~= seq![label@] + blanks((cols + 1) as nat));
                },
                EmitRow::Data(row_idx) => {
                    let i = *row_idx;
                    proof {
                        self.lemma_plan_data_in_range(attractor_names@);
                        assert(row_specs(plan@)[p as int] == RowSpec::Data(i as int));
                    }
                    rec.push(shortnames.get_or_key(&self.stressor_ids[i]));
                    assert(rec.deep_view() =~= seq![self.row_label(i as int, shortnames@)] + digit_fields(self.grid()[i as int]).take(0));
                    let ghost g_row = self.grid()[i as int];
                    assert(g_row == self.cells@[i as int]@);
                    let mut b: usize = 0;
                    while b < cols
                        invariant
                            self.wf(),
                            cols == self.cols(),
                            i < self.rows(),
                            g_row == self.grid()[i as int],
                            g_row == self.cells@[i as int]@,
                            b <= cols,
                            rec.deep_view() == seq![self.row_label(i as int, shortnames@)] + digit_fields(g_row).take(b as int),
                        decreases cols - b,
                    {
                        let cell = decimal_string(self.cells[i][b] as u64);
                        let ghost old_dv = rec.deep_view();
                        rec.push(cell);
                        assert(rec.deep_view() =~= old_dv.push(decimal(g_row[b as int] as nat)));
                        b = b + 1;
                        assert(rec.deep_view() =~= seq![self.row_label(i as int, shortnames@)] + digit_fields(g_row).take(b as int));
                    }
                    assert(digit_fields(g_row).take(cols as int) =~= digit_fields(g_row));
                    let ghost old_dv = rec.deep_view();
                    rec.push(decimal_string(row_totals[i] as u64));
                    assert(rec.deep_view() =~= old_dv.push(decimal(row_sum(g_row) as nat)));
                },
            }
            assert(rec.deep_view() =~= self.record_of(spec_row, shortnames@));
            let ghost old_rdv = records.deep_view();
            records.push(rec);
            assert(records.deep_view() =~= old_rdv.push(self.record_of(spec_row, shortnames@)));
            assert(target[p + 1] == self.record_of(spec_row, shortnames@));
            p = p + 1;
            assert(records.deep_view() =~= target.take(p + 1));
        }
        let mut totals: Vec<String> = Vec::new();
        totals.push(String::from_str("total"));
        let mut j: usize = 0;
        while j < cols
            invariant
                self.wf(),
                cols == self.cols(),
                col_totals@.len() == cols,
                forall|b: int| 0 <= b < cols ==> #[trigger] col_totals@[b] == col_sum(self.grid(), b),
                j <= cols,
                totals.deep_view() == seq!["total"@] + Seq::new(j as nat, |b: int| decimal(col_sum(self.grid(), b) as nat)),
            decreases cols - j,
        {
            let ghost old_dv = totals.deep_view();
            totals.push(decimal_string(col_totals[j] as u64));
            assert(totals.deep_view() =~= old_dv.push(decimal(col_sum(self.grid(), j as int) as nat)));
            j = j + 1;
            assert(totals.deep_view() =~= seq!["total"@] + Seq::new(j as nat, |b: int| decimal(col_sum(self.grid(), b) as nat)));
        }
        let ghost old_dv = totals.deep_view();
        totals.push(decimal_string(grand as u64));
        assert(totals.deep_view() =~= old_dv.push(decimal(grid_sum(self.grid()) as nat)));
        let ghost last_rec = seq!["total"@] + Seq::new(
            cols as nat,
            |b: int| decimal(col_sum(self.grid(), b) as nat),
        ) + seq![decimal(grid_sum(self.grid()) as nat)];
        assert(totals.deep_view() =~= last_rec);
        assert(target.last() == last_rec);
        let ghost old_rdv = records.deep_view();
        records.push(totals);
        assert(records.deep_view() =~= old_rdv.push(last_rec));
        assert(records.deep_view() =~= target);
        encode_records(&records)
    }
}

} // verus!
