//! Reachability in a directed graph over `0..n`, given as a matrix.
//!
//! Both the type checker, over calls between functions, and emission, over
//! the functions the entry point reaches, ask which nodes a chain of edges
//! leads to.

use vstd::prelude::*;

verus! {

/// Whether a chain of at most `steps` edges leads from `i` to `j` in the
/// graph over `0..n` whose edges `edge` gives.
pub open spec fn reaches(edge: spec_fn(int, int) -> bool, n: int, i: int, j: int, steps: nat) -> bool
    decreases steps, 0int,
{
    if steps == 0 {
        false
    } else {
        reaches(edge, n, i, j, (steps - 1) as nat) || edge(i, j) || via(edge, n, i, j, (steps - 1) as nat, n)
    }
}

/// Whether, for one of the nodes below `m`, a chain of at most `steps`
/// edges leads from `i` to it and an edge from it to `j`.
pub open spec fn via(edge: spec_fn(int, int) -> bool, n: int, i: int, j: int, steps: nat, m: int) -> bool
    decreases steps, m + 1,
{
    if m <= 0 {
        false
    } else {
        via(edge, n, i, j, steps, m - 1) || (reaches(edge, n, i, m - 1, steps) && edge(m - 1, j))
    }
}

/// Whether a chain of edges leads from `i` to `j`: no chain without a
/// repeated node is longer than there are nodes.
pub open spec fn leads(edge: spec_fn(int, int) -> bool, n: int, i: int, j: int) -> bool {
    reaches(edge, n, i, j, n as nat)
}

/// `m` is an `n` by `n` matrix of booleans that holds `f`.
pub open spec fn holds(m: Seq<Vec<bool>>, n: int, f: spec_fn(int, int) -> bool) -> bool {
    &&& m.len() == n
    &&& forall|i: int| 0 <= i < n ==> (#[trigger] m[i])@.len() == n
    &&& forall|i: int, j: int| 0 <= i < n && 0 <= j < n ==> (#[trigger] m[i]@[j]) == f(i, j)
}

/// An `n` by `n` matrix of `false`.
pub fn empty_matrix(n: usize) -> (m: Vec<Vec<bool>>)
    ensures
        holds(m@, n as int, |i: int, j: int| false),
{
    let mut m: Vec<Vec<bool>> = Vec::new();
    let mut i: usize = 0;
    while i < n
        invariant
            i <= n,
            m@.len() == i,
            forall|a: int| 0 <= a < i ==> (#[trigger] m@[a])@.len() == n,
            forall|a: int, b: int| 0 <= a < i && 0 <= b < n ==> !(#[trigger] m@[a]@[b]),
        decreases n - i,
    {
        let mut row: Vec<bool> = Vec::new();
        let mut j: usize = 0;
        while j < n
            invariant
                j <= n,
                row@.len() == j,
                forall|b: int| 0 <= b < j ==> !row@[b],
            decreases n - j,
        {
            row.push(false);
            j = j + 1;
        }
        m.push(row);
        i = i + 1;
    }
    m
}

/// Which chains of edges of `g`, the matrix of `edge`, lead where.
pub fn closure(g: &Vec<Vec<bool>>, Ghost(edge): Ghost<spec_fn(int, int) -> bool>) -> (r: Vec<Vec<bool>>)
    requires
        holds(g@, g@.len() as int, edge),
    ensures
        holds(r@, g@.len() as int, |i: int, j: int| leads(edge, g@.len() as int, i, j)),
{
    let n = g.len();
    let mut reach = empty_matrix(n);
    let mut steps: usize = 0;
    proof {
        assert forall|a: int, b: int| 0 <= a < n && 0 <= b < n implies (#[trigger] reach@[a]@[b]) == reaches(
            edge,
            n as int,
            a,
            b,
            0,
        ) by {}
    }
    while steps < n
        invariant
            steps <= n,
            n == g@.len(),
            holds(g@, n as int, edge),
            holds(reach@, n as int, |i: int, j: int| reaches(edge, n as int, i, j, steps as nat)),
        decreases n - steps,
    {
        reach = extend(g, &reach, Ghost(edge), Ghost(steps as nat));
        steps = steps + 1;
    }
    reach
}

/// One more round: `reach` holds, for each pair, whether `steps` edges
/// lead from one to the other; the result holds it for `steps + 1`.
#[verifier::loop_isolation(false)]
fn extend(g: &Vec<Vec<bool>>, reach: &Vec<Vec<bool>>, Ghost(edge): Ghost<spec_fn(int, int) -> bool>, Ghost(steps): Ghost<nat>) -> (r: Vec<Vec<bool>>)
    requires
        holds(g@, g@.len() as int, edge),
        holds(reach@, g@.len() as int, |i: int, j: int| reaches(edge, g@.len() as int, i, j, steps)),
    ensures
        holds(r@, g@.len() as int, |i: int, j: int| reaches(edge, g@.len() as int, i, j, steps + 1)),
{
    let n = g.len();
    let ghost next: nat = steps + 1;
    proof {
        assert((next - 1) as nat == steps);
    }
    let mut r: Vec<Vec<bool>> = Vec::new();
    let mut i: usize = 0;
    while i < n
        invariant
            i <= n,
            r@.len() == i,
            forall|a: int| 0 <= a < i ==> (#[trigger] r@[a])@.len() == n,
            forall|a: int, b: int|
                0 <= a < i && 0 <= b < n ==> (#[trigger] r@[a]@[b]) == reaches(edge, n as int, a, b, steps + 1),
        decreases n - i,
    {
        let mut row: Vec<bool> = Vec::new();
        let mut j: usize = 0;
        while j < n
            invariant
                i < n,
                j <= n,
                row@.len() == j,
                forall|b: int| 0 <= b < j ==> (#[trigger] row@[b]) == reaches(edge, n as int, i as int, b, steps + 1),
            decreases n - j,
        {
            let base = reach[i][j] || g[i][j];
            let mut any = false;
            let mut m: usize = 0;
            while m < n
                invariant
                    i < n,
                    j < n,
                    m <= n,
                    any == via(edge, n as int, i as int, j as int, steps, m as int),
                decreases n - m,
            {
                any = any || (reach[i][m] && g[m][j]);
                m = m + 1;
            }
            row.push(base || any);
            j = j + 1;
        }
        r.push(row);
        i = i + 1;
    }
    r
}

} // verus!
