//! Ordered pairs of emission lines, for one threshold or for a list of them.

use crate::table::{visible, CrossSectionTable, Sample};
use vstd::arithmetic::div_mod::lemma_fundamental_div_mod_converse;
use vstd::prelude::*;

verus! {

/// Two distinct lines, each with its number (counted from 1) and its table.
/// The order matters: the left line is the numerator of the intensity ratio.
#[derive(Debug)]
pub struct LinePair {
    pub left_index: usize,
    pub left: CrossSectionTable,
    pub right_index: usize,
    pub right: CrossSectionTable,
}

/// What a `LinePair` holds, as mathematics.
pub struct LinePairView {
    pub left_index: int,
    pub left: Seq<Sample>,
    pub right_index: int,
    pub right: Seq<Sample>,
}

impl View for LinePair {
    type V = LinePairView;

    open spec fn view(&self) -> LinePairView {
        LinePairView {
            left_index: self.left_index as int,
            left: self.left@,
            right_index: self.right_index as int,
            right: self.right@,
        }
    }
}

/// The samples of each table of a list.
pub open spec fn tables_view(tables: Seq<CrossSectionTable>) -> Seq<Seq<Sample>> {
    tables.map_values(|t: CrossSectionTable| t@)
}

/// The contents of each pair of a list.
pub open spec fn pairs_view(pairs: Seq<LinePair>) -> Seq<LinePairView> {
    pairs.map_values(|p: LinePair| p@)
}

/// Every table cut down to what `threshold` leaves visible.
pub open spec fn truncated(tables: Seq<Seq<Sample>>, threshold: u64) -> Seq<Seq<Sample>> {
    tables.map_values(|t: Seq<Sample>| t.take(visible(t, threshold) as int))
}

/// The pair of the lines at positions `i` and `j` of `tables`.
pub open spec fn pair_of(tables: Seq<Seq<Sample>>, i: int, j: int) -> LinePairView {
    LinePairView { left_index: i + 1, left: tables[i], right_index: j + 1, right: tables[j] }
}

/// Where the pair of positions `(i, j)`, `i != j`, stands among the pairs of
/// `n` lines: rows by `i`, and within a row by `j` with the diagonal left out.
pub open spec fn slot(n: int, i: int, j: int) -> int {
    i * (n - 1) + if j < i {
        j
    } else {
        j - 1
    }
}

/// The pair that stands at place `k`: the inverse of `slot`.
pub open spec fn pair_at(tables: Seq<Seq<Sample>>, k: int) -> LinePairView {
    let width = tables.len() - 1;
    let i = k / width;
    let r = k % width;
    pair_of(
        tables,
        i,
        if r < i {
            r
        } else {
            r + 1
        },
    )
}

/// All ordered pairs of distinct lines, row by row.
pub open spec fn pairs_of(tables: Seq<Seq<Sample>>) -> Seq<LinePairView> {
    Seq::new((tables.len() * (tables.len() - 1)) as nat, |k: int| pair_at(tables, k))
}

/// `slot` is where `pairs_of` keeps the pair of positions `(i, j)`.
pub proof fn lemma_pair_slot(tables: Seq<Seq<Sample>>, i: int, j: int)
    requires
        0 <= i < tables.len(),
        0 <= j < tables.len(),
        i != j,
    ensures
        0 <= slot(tables.len() as int, i, j) < pairs_of(tables).len(),
        pairs_of(tables)[slot(tables.len() as int, i, j)] == pair_of(tables, i, j),
{
    let n = tables.len() as int;
    let r = if j < i {
        j
    } else {
        j - 1
    };
    let k = slot(n, i, j);
    lemma_fundamental_div_mod_converse(k, n - 1, i, r);
    assert(0 <= i * (n - 1) && i * (n - 1) + (n - 1) <= n * (n - 1)) by (nonlinear_arith)
        requires
            0 <= i < n,
    ;
}

/// Every pair of `pairs_of` joins two different lines of the list.
pub proof fn lemma_pairs_distinct(tables: Seq<Seq<Sample>>, k: int)
    requires
        0 <= k < pairs_of(tables).len(),
    ensures
        pairs_of(tables)[k].left_index != pairs_of(tables)[k].right_index,
        1 <= pairs_of(tables)[k].left_index <= tables.len(),
        1 <= pairs_of(tables)[k].right_index <= tables.len(),
{
    let n = tables.len() as int;
    let width = n - 1;
    assert(n * (n - 1) >= 0) by (nonlinear_arith)
        requires
            n >= 0,
    ;
    assert(n >= 2) by (nonlinear_arith)
        requires
            0 <= k < n * (n - 1),
            n >= 0,
    ;
    let i = k / width;
    let r = k % width;
    vstd::arithmetic::div_mod::lemma_fundamental_div_mod(k, width);
    vstd::arithmetic::div_mod::lemma_mod_bound(k, width);
    assert(0 <= i < n) by (nonlinear_arith)
        requires
            k == width * i + r,
            0 <= r < width,
            0 <= k < n * width,
            width == n - 1,
    ;
}

/// Truncates every table of `tables` at the threshold `ev`.
pub fn extract_cs_by_ev(ev: u64, tables: &Vec<CrossSectionTable>) -> (cut: Vec<CrossSectionTable>)
    ensures
        tables_view(cut@) == truncated(tables_view(tables@), ev),
{
    let n = tables.len();
    let mut cut: Vec<CrossSectionTable> = Vec::new();
    let mut i: usize = 0;
    while i < n
        invariant
            n == tables@.len(),
            i <= n,
            cut@.len() == i,
            forall|k: int|
                0 <= k < i ==> (#[trigger] cut@[k])@ == tables@[k]@.take(
                    visible(tables@[k]@, ev) as int,
                ),
        decreases n - i,
    {
        cut.push(tables[i].truncate(ev));
        i += 1;
    }
    assert(tables_view(cut@) =~= truncated(tables_view(tables@), ev));
    cut
}

/// Lists every ordered pair of distinct lines: for each left line in turn,
/// every other line as the right one, both in the order of `tables`.
pub fn build_pairs(tables: &Vec<CrossSectionTable>) -> (pairs: Vec<LinePair>)
    ensures
        pairs_view(pairs@) == pairs_of(tables_view(tables@)),
        pairs@.len() == tables@.len() * (tables@.len() - 1),
        forall|k: int|
            0 <= k < pairs@.len() ==> (#[trigger] pairs@[k]).left_index != pairs@[k].right_index,
{
    let n = tables.len();
    let ghost views = tables_view(tables@);
    let mut pairs: Vec<LinePair> = Vec::new();
    let mut i: usize = 0;
    while i < n
        invariant
            n == tables@.len(),
            views == tables_view(tables@),
            i <= n,
            pairs@.len() == i * (n - 1),
            forall|k: int| 0 <= k < pairs@.len() ==> (#[trigger] pairs@[k])@ == pair_at(views, k),
        decreases n - i,
    {
        let mut j: usize = 0;
        while j < n
            invariant
                n == tables@.len(),
                views == tables_view(tables@),
                i < n,
                j <= n,
                pairs@.len() == i * (n - 1) + if j <= i {
                    j as int
                } else {
                    j - 1
                },
                forall|k: int|
                    0 <= k < pairs@.len() ==> (#[trigger] pairs@[k])@ == pair_at(views, k),
            decreases n - j,
        {
            if i != j {
                let pair = LinePair {
                    left_index: i + 1,
                    left: tables[i].duplicate(),
                    right_index: j + 1,
                    right: tables[j].duplicate(),
                };
                proof {
                    let k = pairs@.len() as int;
                    let r = if j < i {
                        j as int
                    } else {
                        j - 1
                    };
                    assert(k == slot(n as int, i as int, j as int));
                    lemma_fundamental_div_mod_converse(k, n - 1, i as int, r);
                    assert(pair@ == pair_at(views, k));
                }
                pairs.push(pair);
            }
            j += 1;
        }
        proof {
            assert(i * (n - 1) + (n - 1) == (i + 1) * (n - 1)) by (nonlinear_arith);
        }
        i += 1;
    }
    proof {
        assert(pairs_view(pairs@) =~= pairs_of(views));
        assert forall|k: int| 0 <= k < pairs@.len() implies (#[trigger] pairs@[k]).left_index
            != pairs@[k].right_index by {
            lemma_pairs_distinct(views, k);
            assert(pairs@[k]@ == pairs_of(views)[k]);
        }
    }
    pairs
}

/// For each threshold in turn, the pairs of the tables truncated at it.
pub fn create_matrix(evs: &Vec<u64>, tables: &Vec<CrossSectionTable>) -> (matrix: Vec<
    Vec<LinePair>,
>)
    ensures
        matrix@.len() == evs@.len(),
        forall|e: int|
            0 <= e < evs@.len() ==> pairs_view((#[trigger] matrix@[e])@) == pairs_of(
                truncated(tables_view(tables@), evs@[e]),
            ),
{
    let mut matrix: Vec<Vec<LinePair>> = Vec::new();
    let mut e: usize = 0;
    while e < evs.len()
        invariant
            e <= evs@.len(),
            matrix@.len() == e,
            forall|d: int|
                0 <= d < e ==> pairs_view((#[trigger] matrix@[d])@) == pairs_of(
                    truncated(tables_view(tables@), evs@[d]),
                ),
        decreases evs@.len() - e,
    {
        let cut = extract_cs_by_ev(evs[e], tables);
        matrix.push(build_pairs(&cut));
        e += 1;
    }
    matrix
}

} // verus!
