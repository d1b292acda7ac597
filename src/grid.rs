//! The order in which nested loops over three lists visit their index triples.
use vstd::prelude::*;

verus! {

/// Triples `(c, m, 0..l)`, last index innermost.
pub open spec fn grid_row(c: int, m: int, l: nat) -> Seq<(int, int, int)>
    decreases l,
{
    if l == 0 {
        Seq::empty()
    } else {
        grid_row(c, m, (l - 1) as nat).push((c, m, l - 1))
    }
}

/// Triples `(c, 0..m, 0..n_l)`.
pub open spec fn grid_plane(c: int, m: nat, n_l: nat) -> Seq<(int, int, int)>
    decreases m,
{
    if m == 0 {
        Seq::empty()
    } else {
        grid_plane(c, (m - 1) as nat, n_l) + grid_row(c, m - 1, n_l)
    }
}

/// Triples `(0..c, 0..n_m, 0..n_l)` in nested-loop order.
pub open spec fn grid(c: nat, n_m: nat, n_l: nat) -> Seq<(int, int, int)>
    decreases c,
{
    if c == 0 {
        Seq::empty()
    } else {
        grid((c - 1) as nat, n_m, n_l) + grid_plane(c - 1, n_m, n_l)
    }
}

pub proof fn lemma_grid_row(c: int, m: int, l: nat)
    ensures
        grid_row(c, m, l).len() == l,
        forall|k: int| 0 <= k < l ==> #[trigger] grid_row(c, m, l)[k] == (c, m, k),
    decreases l,
{
    if l > 0 {
        lemma_grid_row(c, m, (l - 1) as nat);
    }
}

pub proof fn lemma_grid_plane(c: int, m: nat, n_l: nat)
    ensures
        grid_plane(c, m, n_l).len() == m * n_l,
        forall|k: int|
            0 <= k < grid_plane(c, m, n_l).len() ==> {
                let t = #[trigger] grid_plane(c, m, n_l)[k];
                t.0 == c && 0 <= t.1 < m && 0 <= t.2 < n_l
            },
    decreases m,
{
    if m > 0 {
        lemma_grid_plane(c, (m - 1) as nat, n_l);
        lemma_grid_row(c, m - 1, n_l);
        let p = grid_plane(c, (m - 1) as nat, n_l);
        let r = grid_row(c, m - 1, n_l);
        assert forall|k: int| 0 <= k < (p + r).len() implies {
            let t = #[trigger] (p + r)[k];
            t.0 == c && 0 <= t.1 < m && 0 <= t.2 < n_l
        } by {
            if k >= p.len() {
                assert((p + r)[k] == r[k - p.len()]);
            } else {
                assert((p + r)[k] == p[k]);
            }
        }
        assert(grid_plane(c, m, n_l) == p + r);
        let mm = (m - 1) as nat;
        assert(m * n_l == mm * n_l + n_l) by (nonlinear_arith)
            requires
                mm == m - 1,
        ;
    } else {
        assert(m * n_l == 0) by (nonlinear_arith)
            requires
                m == 0,
        ;
    }
}

/// The grid holds `c * n_m * n_l` triples, each within bounds.
pub proof fn lemma_grid(c: nat, n_m: nat, n_l: nat)
    ensures
        grid(c, n_m, n_l).len() == c * n_m * n_l,
        forall|k: int|
            0 <= k < grid(c, n_m, n_l).len() ==> {
                let t = #[trigger] grid(c, n_m, n_l)[k];
                0 <= t.0 < c && 0 <= t.1 < n_m && 0 <= t.2 < n_l
            },
    decreases c,
{
    if c > 0 {
        lemma_grid((c - 1) as nat, n_m, n_l);
        lemma_grid_plane(c - 1, n_m, n_l);
        let p = grid((c - 1) as nat, n_m, n_l);
        let r = grid_plane(c - 1, n_m, n_l);
        assert forall|k: int| 0 <= k < (p + r).len() implies {
            let t = #[trigger] (p + r)[k];
            0 <= t.0 < c && 0 <= t.1 < n_m && 0 <= t.2 < n_l
        } by {
            if k >= p.len() {
                assert((p + r)[k] == r[k - p.len()]);
            } else {
                assert((p + r)[k] == p[k]);
            }
        }
        assert(grid(c, n_m, n_l) == p + r);
        let cc = (c - 1) as nat;
        assert(c * n_m * n_l == cc * n_m * n_l + n_m * n_l) by (nonlinear_arith)
            requires
                cc == c - 1,
        ;
    } else {
        assert(c * n_m * n_l == 0) by (nonlinear_arith)
            requires
                c == 0,
        ;
    }
}

} // verus!
