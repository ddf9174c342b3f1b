//! Transient thermal analysis of a multi-node RC network.
//!
//! A thermal system is diagonalized once into its eigen-modes, yielding an
//! immutable operator set; temperatures are then advanced window by window
//! over a growable history buffer.  The scalar type is a parameter: the
//! engine verified here owns every shape, every index, and the whole life
//! cycle of the history buffer, while the caller supplies the products of
//! the numerical kernels (eigendecomposition and dense multiplication) that
//! are accumulated into the windows.

use vstd::prelude::*;

verus! {

/// The logical contents of the history right after a window of `steps` new
/// blocks has been laid out over the previous contents `prev`: the most
/// recent block of `prev` carried to the front, followed by `steps` blocks
/// holding `zero` in every position.
pub open spec fn advanced<T>(prev: Seq<T>, nodes: int, steps: int, zero: T) -> Seq<T> {
    prev.subrange(prev.len() - nodes, prev.len() as int)
        + Seq::new((steps * nodes) as nat, |i: int| zero)
}

/// The history `h` with state block `i` (of length `nodes`) replaced by
/// `vals` and every other position unchanged.
pub open spec fn with_block<T>(h: Seq<T>, nodes: int, i: int, vals: Seq<T>) -> Seq<T> {
    h.subrange(0, i * nodes) + vals + h.subrange((i + 1) * nodes, h.len() as int)
}

/// Temperature analysis of one thermal RC network.
///
/// Holds the operator set precomputed from the network (eigenvectors `u`,
/// eigenvalues `l`, capacitance scaling `d`, propagation matrix `e`,
/// forcing matrix `f`; all immutable after construction) and the history
/// buffer `s`, a contiguous sequence of state blocks of length `nodes`
/// whose first block is always the most recent state of the previous call.
pub struct Analysis<T> {
    cores: usize,
    nodes: usize,
    u: Vec<T>,
    l: Vec<T>,
    d: Vec<T>,
    e: Vec<T>,
    f: Vec<T>,
    s: Vec<T>,
}

impl<T: Copy> Analysis<T> {
    /// Number of heat-generating cores.
    pub closed spec fn spec_cores(self) -> usize {
        self.cores
    }

    /// Number of thermal nodes.
    pub closed spec fn spec_nodes(self) -> usize {
        self.nodes
    }

    /// Columns are the orthonormal eigenvectors of the symmetrized system
    /// matrix; dense `nodes x nodes`, column-major.
    pub closed spec fn spec_u(self) -> Seq<T> {
        self.u@
    }

    /// The eigenvalues matching the columns of the eigenvector matrix.
    pub closed spec fn spec_l(self) -> Seq<T> {
        self.l@
    }

    /// The capacitance scaling vector, one entry per node.
    pub closed spec fn spec_d(self) -> Seq<T> {
        self.d@
    }

    /// The one-step propagation matrix; dense `nodes x nodes`, column-major.
    pub closed spec fn spec_e(self) -> Seq<T> {
        self.e@
    }

    /// The one-step forcing matrix; dense `nodes x cores`, column-major.
    pub closed spec fn spec_f(self) -> Seq<T> {
        self.f@
    }

    /// The history's logical contents: a whole number of state blocks.
    pub closed spec fn history(self) -> Seq<T> {
        self.s@
    }

    /// Shape invariant: the operator set matches a network of `nodes`
    /// thermal nodes and `cores` heat sources, and the history holds a
    /// positive whole number of state blocks.
    pub open spec fn wf(self) -> bool {
        &&& 1 <= self.spec_nodes()
        &&& self.spec_cores() <= self.spec_nodes()
        &&& self.spec_u().len() == self.spec_nodes() * self.spec_nodes()
        &&& self.spec_l().len() == self.spec_nodes()
        &&& self.spec_d().len() == self.spec_nodes()
        &&& self.spec_e().len() == self.spec_nodes() * self.spec_nodes()
        &&& self.spec_f().len() == self.spec_nodes() * self.spec_cores()
        &&& self.spec_nodes() <= self.history().len()
        &&& (self.history().len() as int) % (self.spec_nodes() as int) == 0
    }

    /// The operator set and the network shape are never changed by the
    /// stepping engine; only the history evolves.
    pub open spec fn same_operators(self, other: Analysis<T>) -> bool {
        &&& self.spec_cores() == other.spec_cores()
        &&& self.spec_nodes() == other.spec_nodes()
        &&& self.spec_u() == other.spec_u()
        &&& self.spec_l() == other.spec_l()
        &&& self.spec_d() == other.spec_d()
        &&& self.spec_e() == other.spec_e()
        &&& self.spec_f() == other.spec_f()
    }

    /// Set up the analysis for a particular problem.
    ///
    /// Consumes the operator set precomputed from the network: `u` holds
    /// the orthonormal eigenvectors of the symmetrized system matrix, `l`
    /// its eigenvalues, `d` the capacitance scaling, `e` the one-step
    /// propagation matrix and `f` the one-step forcing matrix, each dense
    /// and column-major.  The history starts as a single all-`zero` block:
    /// every temperature at the ambient baseline.
    pub fn new(
        cores: usize,
        nodes: usize,
        u: Vec<T>,
        l: Vec<T>,
        d: Vec<T>,
        e: Vec<T>,
        f: Vec<T>,
        zero: T,
    ) -> (r: Analysis<T>)
        requires
            1 <= nodes,
            cores <= nodes,
            u@.len() == nodes * nodes,
            l@.len() == nodes,
            d@.len() == nodes,
            e@.len() == nodes * nodes,
            f@.len() == nodes * cores,
        ensures
            r.wf(),
            r.spec_cores() == cores,
            r.spec_nodes() == nodes,
            r.spec_u() == u@,
            r.spec_l() == l@,
            r.spec_d() == d@,
            r.spec_e() == e@,
            r.spec_f() == f@,
            r.history() == Seq::new(nodes as nat, |i: int| zero),
    {
        let mut s: Vec<T> = Vec::new();
        while s.len() < nodes
            invariant
                s@.len() <= nodes,
                forall|k: int| 0 <= k < s@.len() ==> s@[k] == zero,
            decreases nodes - s@.len(),
        {
            s.push(zero);
        }
        proof {
            assert(s@ =~= Seq::new(nodes as nat, |i: int| zero));
            assert(nodes as int % (nodes as int) == 0) by (nonlinear_arith)
                requires
                    1 <= nodes,
            ;
        }
        Analysis { cores, nodes, u, l, d, e, f, s }
    }

    /// Advance the history by a window of `steps` new state blocks.
    ///
    /// The most recent block — the state as of the last call — is carried
    /// to the front as the new initial condition, and `steps` blocks of
    /// `zero` are laid out after it; the forcing and propagation products
    /// are then accumulated into those blocks, so they must start from
    /// `zero`.  Spare capacity of the backing storage is reused where it
    /// suffices; the logical contents are the same either way.
    pub fn step(&mut self, steps: usize, zero: T)
        requires
            old(self).wf(),
            1 <= steps,
            (steps + 1) * (old(self).spec_nodes() as int) <= usize::MAX as int,
        ensures
            final(self).wf(),
            old(self).same_operators(*final(self)),
            final(self).history() == advanced(
                old(self).history(),
                old(self).spec_nodes() as int,
                steps as int,
                zero,
            ),
    {
        let n = self.nodes;
        let cur = self.s.len();
        proof {
            assert((steps + 1) as int <= (steps + 1) as int * (n as int)
                && n as int <= (steps + 1) as int * (n as int)) by (nonlinear_arith)
                requires
                    1 <= n,
                    1 <= steps,
            ;
        }
        let required = (steps + 1) * n;

        // Carry the most recent block to the front.  The source range
        // `[cur - n, cur)` is read before any of its positions could be
        // overwritten: either the history holds a single block and every
        // position is read back unchanged, or it holds at least two and
        // the source lies wholly after the destination.
        let mut i: usize = 0;
        while i < n
            invariant
                i <= n,
                n == self.spec_nodes(),
                cur == self.history().len(),
                old(self).same_operators(*self),
                old(self).wf(),
                n <= cur,
                forall|k: int| 0 <= k < i ==> self.history()[k]
                    == old(self).history()[cur - n + k],
                forall|k: int| i <= k < cur ==> self.history()[k] == old(self).history()[k],
            decreases n - i,
        {
            let v = self.s[cur - n + i];
            self.s[i] = v;
            i += 1;
        }
        self.s.truncate(n);

        // Lay out the window: every position after the carried block holds
        // `zero`, reusing whatever storage the previous windows left.
        while self.s.len() < required
            invariant
                n == self.spec_nodes(),
                old(self).same_operators(*self),
                n <= cur == old(self).history().len(),
                n <= self.history().len() <= required,
                required == (steps + 1) * (n as int),
                forall|k: int| 0 <= k < n ==> self.history()[k]
                    == old(self).history()[cur - n + k],
                forall|k: int| n <= k < self.history().len() ==> self.history()[k] == zero,
            decreases required - self.s@.len(),
        {
            self.s.push(zero);
        }

        proof {
            assert(required as int % (n as int) == 0 && required as int == n + steps * n)
                by (nonlinear_arith)
                requires
                    1 <= n,
                    required == (steps + 1) * (n as int),
            ;
            assert(self.history() =~= advanced(
                old(self).history(),
                old(self).spec_nodes() as int,
                steps as int,
                zero,
            ));
        }
    }

    /// A copy of state block `i` of the history (block `0` is the state as
    /// of the last call; blocks `1..` are the current window).
    pub fn block(&self, i: usize) -> (r: Vec<T>)
        requires
            self.wf(),
            ((i + 1) as int) * (self.spec_nodes() as int) <= self.history().len(),
        ensures
            r@ == self.history().subrange(
                (i as int) * (self.spec_nodes() as int),
                ((i + 1) as int) * (self.spec_nodes() as int),
            ),
    {
        let n = self.nodes;
        let len = self.s.len();
        proof {
            assert((i as int) * (n as int) + n == ((i + 1) as int) * (n as int))
                by (nonlinear_arith);
        }
        let start = i * n;
        let mut r: Vec<T> = Vec::new();
        while r.len() < n
            invariant
                n == self.spec_nodes(),
                len == self.history().len(),
                start == (i as int) * (n as int),
                start + n <= len,
                r@.len() <= n,
                forall|k: int| 0 <= k < r@.len() ==> r@[k] == self.history()[start + k],
            decreases n - r@.len(),
        {
            let k = r.len();
            let v = self.s[start + k];
            r.push(v);
        }
        proof {
            assert(r@ =~= self.history().subrange(
                (i as int) * (n as int),
                ((i + 1) as int) * (n as int),
            ));
        }
        r
    }

    /// Overwrite state block `i` of the history with `vals`; every other
    /// position is untouched.
    pub fn store_block(&mut self, i: usize, vals: &[T])
        requires
            old(self).wf(),
            vals@.len() == old(self).spec_nodes(),
            ((i + 1) as int) * (old(self).spec_nodes() as int) <= old(self).history().len(),
        ensures
            final(self).wf(),
            old(self).same_operators(*final(self)),
            final(self).history() == with_block(
                old(self).history(),
                old(self).spec_nodes() as int,
                i as int,
                vals@,
            ),
    {
        let n = self.nodes;
        let len = self.s.len();
        proof {
            assert((i as int) * (n as int) + n == ((i + 1) as int) * (n as int)
                && 0 <= (i as int) * (n as int)) by (nonlinear_arith);
        }
        let start = i * n;
        let mut k: usize = 0;
        while k < n
            invariant
                k <= n,
                n == self.spec_nodes(),
                vals@.len() == n,
                start == (i as int) * (n as int),
                len == self.history().len(),
                start + n <= len,
                old(self).same_operators(*self),
                old(self).wf(),
                self.history().len() == old(self).history().len(),
                forall|m: int| start <= m < start + k ==> self.history()[m] == vals@[m - start],
                forall|m: int| 0 <= m < self.history().len() && !(start <= m < start + k)
                    ==> self.history()[m] == old(self).history()[m],
            decreases n - k,
        {
            let v = vals[k];
            self.s[start + k] = v;
            k += 1;
        }
        proof {
            assert(self.history() =~= with_block(
                old(self).history(),
                old(self).spec_nodes() as int,
                i as int,
                vals@,
            ));
        }
    }

    /// A copy of every state block after block `0`: the window that the
    /// current call is filling.
    pub fn tail(&self) -> (r: Vec<T>)
        requires
            self.wf(),
        ensures
            r@ == self.history().skip(self.spec_nodes() as int),
    {
        let n = self.nodes;
        let len = self.s.len();
        let mut r: Vec<T> = Vec::new();
        while n + r.len() < len
            invariant
                n == self.spec_nodes(),
                len == self.history().len(),
                n <= len,
                n + r@.len() <= len,
                forall|k: int| 0 <= k < r@.len() ==> r@[k] == self.history()[n + k],
            decreases len - n - r@.len(),
        {
            let k = r.len();
            let v = self.s[n + k];
            r.push(v);
        }
        proof {
            assert(r@ =~= self.history().skip(n as int));
        }
        r
    }

    /// Overwrite every state block after block `0` with `vals`; block `0`
    /// is untouched.
    pub fn store_tail(&mut self, vals: &[T])
        requires
            old(self).wf(),
            vals@.len() == old(self).history().len() - old(self).spec_nodes(),
        ensures
            final(self).wf(),
            old(self).same_operators(*final(self)),
            final(self).history() == old(self).history().take(old(self).spec_nodes() as int)
                + vals@,
    {
        let n = self.nodes;
        let len = self.s.len();
        let mut k: usize = 0;
        while k < len - n
            invariant
                k <= len - n,
                n == self.spec_nodes(),
                n <= len,
                vals@.len() == len - n,
                old(self).same_operators(*self),
                old(self).wf(),
                len == self.history().len() == old(self).history().len(),
                forall|m: int| 0 <= m < k ==> self.history()[n + m] == vals@[m],
                forall|m: int| 0 <= m < n ==> self.history()[m] == old(self).history()[m],
            decreases len - n - k,
        {
            let v = vals[k];
            self.s[n + k] = v;
            k += 1;
        }
        proof {
            assert(self.history() =~= old(self).history().take(old(self).spec_nodes() as int)
                + vals@);
        }
    }

    /// Number of heat-generating cores.
    pub fn core_count(&self) -> (r: usize)
        ensures
            r == self.spec_cores(),
    {
        self.cores
    }

    /// Number of thermal nodes.
    pub fn node_count(&self) -> (r: usize)
        ensures
            r == self.spec_nodes(),
    {
        self.nodes
    }

    /// The eigenvector matrix of the symmetrized system.
    pub fn eigenvectors(&self) -> (r: &Vec<T>)
        ensures
            r@ == self.spec_u(),
    {
        &self.u
    }

    /// The eigenvalues of the symmetrized system.
    pub fn eigenvalues(&self) -> (r: &Vec<T>)
        ensures
            r@ == self.spec_l(),
    {
        &self.l
    }

    /// The capacitance scaling vector.
    pub fn scaling(&self) -> (r: &Vec<T>)
        ensures
            r@ == self.spec_d(),
    {
        &self.d
    }

    /// The one-step propagation matrix.
    pub fn propagation(&self) -> (r: &Vec<T>)
        ensures
            r@ == self.spec_e(),
    {
        &self.e
    }

    /// The one-step forcing matrix.
    pub fn forcing(&self) -> (r: &Vec<T>)
        ensures
            r@ == self.spec_f(),
    {
        &self.f
    }
}

/// Law — buffer growth correctness: the window that `step` lays out is
/// determined by the logical contents of the history alone.  Two engines
/// over the same network whose histories held the same contents hold the
/// same contents again after matching calls, whatever their backing
/// storage did in between: reusing spare capacity and reallocating are
/// observably the same.
pub proof fn lemma_step_growth_independent<T: Copy>(
    pre1: Analysis<T>,
    post1: Analysis<T>,
    pre2: Analysis<T>,
    post2: Analysis<T>,
    steps: usize,
    zero: T,
)
    requires
        pre1.spec_nodes() == pre2.spec_nodes(),
        pre1.history() == pre2.history(),
        post1.history() == advanced(
            pre1.history(),
            pre1.spec_nodes() as int,
            steps as int,
            zero,
        ),
        post2.history() == advanced(
            pre2.history(),
            pre2.spec_nodes() as int,
            steps as int,
            zero,
        ),
    ensures
        post1.history() == post2.history(),
{
}

/// Law — state carried across calls: the window laid out by `step` begins
/// with the most recent state block of the previous history, carried
/// forward as the new initial condition, and every position of the `steps`
/// new blocks starts from `zero`.  This is what lets one batched call and
/// a train of single-step calls walk through the same states.
pub proof fn lemma_step_carries_state<T>(prev: Seq<T>, nodes: int, steps: int, zero: T)
    requires
        1 <= nodes,
        1 <= steps,
        nodes <= prev.len(),
    ensures
        advanced(prev, nodes, steps, zero).len() == nodes + steps * nodes,
        advanced(prev, nodes, steps, zero).subrange(0, nodes) == prev.subrange(
            prev.len() - nodes,
            prev.len() as int,
        ),
        forall|k: int| nodes <= k < nodes + steps * nodes
            ==> advanced(prev, nodes, steps, zero)[k] == zero,
{
    assert(0 <= steps * nodes) by (nonlinear_arith)
        requires
            1 <= nodes,
            1 <= steps,
    ;
    assert(advanced(prev, nodes, steps, zero).subrange(0, nodes) =~= prev.subrange(
        prev.len() - nodes,
        prev.len() as int,
    ));
}

} // verus!

