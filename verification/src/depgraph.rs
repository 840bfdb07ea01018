//! The action dependency graph: setup, install, sync and run actions with
//! their ordering edges, and a batched topological sort whose batches run
//! dependencies strictly before their dependents.
use vstd::prelude::*;

use crate::ids::Id;
use crate::platform::PlatformType;
use crate::target::Target;

verus! {

/// One schedulable action.
pub enum ActionNode {
    /// Install the toolchain of a platform.
    SetupTool(PlatformType),
    /// Install a platform's dependencies.
    InstallDeps(PlatformType),
    /// Synchronize a project's workspace state.
    SyncProject(Id),
    /// Run a target to completion.
    RunTarget(Target),
    /// Run a target that stays alive.
    RunPersistentTarget(Target),
}

/// Raised when the actions cannot be ordered.
#[derive(Debug)]
pub enum DepGraphError {
    /// The remaining actions wait on one another; holds an action index
    /// among them.
    CyclicDependency(usize),
}

/// A directed graph of actions. An edge runs from a dependent action to
/// the action it requires.
pub struct DepGraph {
    pub nodes: Vec<ActionNode>,
    pub edges: Vec<(usize, usize)>,
}

/// Every edge endpoint names a node.
pub open spec fn depgraph_wf(g: &DepGraph) -> bool {
    forall|e: int|
        0 <= e < g.edges@.len() ==> (#[trigger] g.edges@[e]).0 < g.nodes@.len() && g.edges@[e].1
            < g.nodes@.len()
}

/// A node sits in one of the batches.
pub open spec fn spec_in_batches(batches: Seq<Seq<usize>>, x: usize) -> bool {
    exists|bi: int, j: int|
        0 <= bi < batches.len() && 0 <= j < batches[bi].len() && batches[bi][j] == x
}

/// A batched order is a topological order of the graph: every node stands
/// in exactly one batch, and every edge's required node stands in a
/// strictly earlier batch than its dependent.
pub open spec fn spec_valid_batches(g: &DepGraph, batches: Seq<Seq<usize>>) -> bool {
    &&& (forall|x: usize| (x as int) < g.nodes@.len() ==> spec_in_batches(batches, x))
    &&& (forall|bi: int, j: int|
        0 <= bi < batches.len() && 0 <= j < batches[bi].len() ==> (#[trigger] batches[bi][j] as int)
            < g.nodes@.len())
    &&& (forall|b1: int, j1: int, b2: int, j2: int|
        0 <= b1 < batches.len() && 0 <= j1 < batches[b1].len() && 0 <= b2 < batches.len() && 0
            <= j2 < batches[b2].len() && (b1 != b2 || j1 != j2) ==> #[trigger] batches[b1][j1]
            != #[trigger] batches[b2][j2])
    &&& (forall|e: int, b1: int, j1: int, b2: int, j2: int|
        0 <= e < g.edges@.len() && 0 <= b1 < batches.len() && 0 <= j1 < batches[b1].len() && 0
            <= b2 < batches.len() && 0 <= j2 < batches[b2].len() && #[trigger] batches[b1][j1]
            == (#[trigger] g.edges@[e]).0 && #[trigger] batches[b2][j2] == g.edges@[e].1 ==> b2
            < b1)
}

impl DepGraph {
    /// An empty graph.
    pub fn new() -> (r: DepGraph)
        ensures
            depgraph_wf(&r),
            r.nodes@.len() == 0,
            r.edges@.len() == 0,
    {
        DepGraph { nodes: Vec::new(), edges: Vec::new() }
    }

    /// Add an action, returning its index.
    pub fn add_node(&mut self, node: ActionNode) -> (r: usize)
        requires
            depgraph_wf(old(self)),
        ensures
            depgraph_wf(final(self)),
            r == old(self).nodes@.len(),
            final(self).nodes@.len() == old(self).nodes@.len() + 1,
            final(self).edges == old(self).edges,
    {
        let r = self.nodes.len();
        self.nodes.push(node);
        r
    }

    /// Add an ordering edge: the dependent requires the other action.
    pub fn add_edge(&mut self, dependent: usize, requirement: usize)
        requires
            depgraph_wf(old(self)),
            dependent < old(self).nodes@.len(),
            requirement < old(self).nodes@.len(),
        ensures
            depgraph_wf(final(self)),
            final(self).nodes == old(self).nodes,
            final(self).edges@ == old(self).edges@.push((dependent, requirement)),
    {
        self.edges.push((dependent, requirement));
    }

    /// How many actions the graph holds.
    pub fn get_node_count(&self) -> (r: usize)
        ensures
            r == self.nodes@.len(),
    {
        self.nodes.len()
    }

    /// Borrow the action at an index.
    pub fn get_node_from_index(&self, index: usize) -> (r: Option<&ActionNode>)
        ensures
            match r {
                Some(node) => index < self.nodes@.len() && *node == self.nodes@[index as int],
                None => index >= self.nodes@.len(),
            },
    {
        if index < self.nodes.len() {
            Some(&self.nodes[index])
        } else {
            None
        }
    }

    /// Gather every remaining action whose requirements have all been
    /// emitted, in index order. Every remaining action left out waits on
    /// another remaining action.
    fn collect_ready(&self, emitted: &Vec<bool>) -> (batch: Vec<usize>)
        requires
            depgraph_wf(self),
            emitted@.len() == self.nodes@.len(),
        ensures
            forall|j: int|
                0 <= j < batch@.len() ==> (#[trigger] batch@[j] as int) < self.nodes@.len()
                    && !emitted@[batch@[j] as int],
            forall|j1: int, j2: int|
                0 <= j1 < j2 < batch@.len() ==> #[trigger] batch@[j1] != #[trigger] batch@[j2],
            forall|j: int, e: int|
                0 <= j < batch@.len() && 0 <= e < self.edges@.len()
                    && (#[trigger] self.edges@[e]).0 == #[trigger] batch@[j]
                    ==> emitted@[self.edges@[e].1 as int],
            forall|j1: int, j2: int| 0 <= j1 < j2 < batch@.len() ==> batch@[j1] < batch@[j2],
            forall|x2: usize|
                (x2 as int) < self.nodes@.len() && !emitted@[x2 as int] ==> (batch@.contains(x2)
                    || (exists|e: int|
                    0 <= e < self.edges@.len() && (#[trigger] self.edges@[e]).0 == x2
                        && !emitted@[self.edges@[e].1 as int])),
    {
        let n = self.nodes.len();
        let mut batch: Vec<usize> = Vec::new();
        let mut x: usize = 0;
        while x < n
            invariant
                depgraph_wf(self),
                n == self.nodes@.len(),
                emitted@.len() == n,
                0 <= x <= n,
                forall|j: int|
                    0 <= j < batch@.len() ==> (#[trigger] batch@[j] as int) < n
                        && !emitted@[batch@[j] as int],
                forall|j1: int, j2: int|
                    0 <= j1 < j2 < batch@.len() ==> #[trigger] batch@[j1] != #[trigger] batch@[j2],
                forall|j: int, e: int|
                    0 <= j < batch@.len() && 0 <= e < self.edges@.len()
                        && (#[trigger] self.edges@[e]).0 == #[trigger] batch@[j]
                        ==> emitted@[self.edges@[e].1 as int],
                forall|j1: int, j2: int| 0 <= j1 < j2 < batch@.len() ==> batch@[j1] < batch@[j2],
                forall|j: int| 0 <= j < batch@.len() ==> (#[trigger] batch@[j] as int) < x,
                forall|x2: usize|
                    (x2 as int) < x && !emitted@[x2 as int] ==> (batch@.contains(x2) || (
                    exists|e: int|
                        0 <= e < self.edges@.len() && (#[trigger] self.edges@[e]).0 == x2
                            && !emitted@[self.edges@[e].1 as int])),
            decreases n - x,
        {
            if !emitted[x] {
                let mut ready = true;
                let ne = self.edges.len();
                let mut e: usize = 0;
                while e < ne
                    invariant
                        depgraph_wf(self),
                        n == self.nodes@.len(),
                        emitted@.len() == n,
                        ne == self.edges@.len(),
                        0 <= e <= ne,
                        x < n,
                        ready ==> forall|l: int|
                            0 <= l < e && (#[trigger] self.edges@[l]).0 == x
                                ==> emitted@[self.edges@[l].1 as int],
                        !ready ==> exists|l: int|
                            0 <= l < ne && (#[trigger] self.edges@[l]).0 == x
                                && !emitted@[self.edges@[l].1 as int],
                    decreases ne - e,
                {
                    let (u, v) = (self.edges[e].0, self.edges[e].1);
                    if u == x && !emitted[v] {
                        ready = false;
                    }
                    e += 1;
                }
                let ghost batch_pre = batch@;
                if ready {
                    batch.push(x);
                }
                proof {
                    if ready {
                        assert(batch@[batch@.len() - 1] == x);
                        assert(batch@.contains(x));
                    }
                    assert forall|x2: usize|
                        (x2 as int) < x + 1 && !emitted@[x2 as int] implies (batch@.contains(x2)
                            || (exists|e: int|
                            0 <= e < self.edges@.len() && (#[trigger] self.edges@[e]).0 == x2
                                && !emitted@[self.edges@[e].1 as int])) by {
                        if (x2 as int) < x {
                            if batch_pre.contains(x2) {
                                let j = choose|j: int|
                                    0 <= j < batch_pre.len() && batch_pre[j] == x2;
                                assert(batch@[j] == x2);
                            }
                        }
                    };
                }
            }
            x += 1;
        }
        batch
    }

    /// Order the actions into batches: each batch gathers every remaining
    /// action whose requirements have all been emitted, so a batch's
    /// actions may run together while everything they require ran in an
    /// earlier batch. Fails where the remaining actions wait on one
    /// another.
    #[verifier::rlimit(100)]
    pub fn sort_batched_topological(&self) -> (r: Result<Vec<Vec<usize>>, DepGraphError>)
        requires
            depgraph_wf(self),
        ensures
            r matches Ok(batches) ==> spec_valid_batches(self, batches.deep_view()),
    {
        let n = self.nodes.len();
        let mut emitted: Vec<bool> = Vec::new();
        let mut i: usize = 0;
        while i < n
            invariant
                0 <= i <= n,
                emitted@.len() == i,
                forall|x: int| 0 <= x < i ==> !emitted@[x],
            decreases n - i,
        {
            emitted.push(false);
            i += 1;
        }
        let mut batches: Vec<Vec<usize>> = Vec::new();
        let mut remaining: usize = count_unemitted(&emitted);
        proof {
            assert(batches.deep_view() =~= Seq::<Seq<usize>>::empty());
        }
        while remaining > 0
            invariant
                depgraph_wf(self),
                n == self.nodes@.len(),
                emitted@.len() == n,
                remaining == n - count_emitted(emitted@, n as int),
                forall|x: usize|
                    (x as int) < n ==> (emitted@[x as int] <==> spec_in_batches(
                        batches.deep_view(),
                        x,
                    )),
                forall|bi: int, j: int|
                    0 <= bi < batches.deep_view().len() && 0 <= j
                        < batches.deep_view()[bi].len() ==> (#[trigger] batches.deep_view()[bi][j] as int)
                        < n,
                forall|b1: int, j1: int, b2: int, j2: int|
                    0 <= b1 < batches.deep_view().len() && 0 <= j1 < batches.deep_view()[b1].len()
                        && 0 <= b2 < batches.deep_view().len() && 0 <= j2
                        < batches.deep_view()[b2].len() && (b1 != b2 || j1 != j2)
                        ==> #[trigger] batches.deep_view()[b1][j1]
                        != #[trigger] batches.deep_view()[b2][j2],
                forall|e: int, b1: int, j1: int, b2: int, j2: int|
                    0 <= e < self.edges@.len() && 0 <= b1 < batches.deep_view().len() && 0 <= j1
                        < batches.deep_view()[b1].len() && 0 <= b2 < batches.deep_view().len() && 0
                        <= j2 < batches.deep_view()[b2].len()
                        && #[trigger] batches.deep_view()[b1][j1] == (#[trigger] self.edges@[e]).0
                        && #[trigger] batches.deep_view()[b2][j2] == self.edges@[e].1 ==> b2 < b1,
                forall|e: int|
                    0 <= e < self.edges@.len() && emitted@[(#[trigger] self.edges@[e]).0 as int]
                        ==> emitted@[self.edges@[e].1 as int],
            decreases remaining,
        {
            let ghost batches0 = batches.deep_view();
            let ghost emitted0 = emitted@;
            let batch = self.collect_ready(&emitted);
            if batch.len() == 0 {
                let mut stuck: usize = 0;
                let mut w: usize = 0;
                while w < n
                    invariant
                        0 <= w <= n,
                        emitted@.len() == n,
                        stuck < n || n == 0,
                    decreases n - w,
                {
                    if !emitted[w] {
                        stuck = w;
                    }
                    w += 1;
                }
                return Err(DepGraphError::CyclicDependency(stuck));
            }
            mark_batch(&mut emitted, &batch);
            let ghost bv = batch@;
            let ghost bdeep = batch.deep_view();
            proof {
                assert(bdeep =~= bv);
            }
            batches.push(batch);
            proof {
                assert(batches.deep_view() =~= batches0.push(bv));
                assert forall|x2: usize| (x2 as int) < n implies (emitted@[x2 as int]
                    <==> spec_in_batches(batches.deep_view(), x2)) by {
                    let bvs = batches.deep_view();
                    if emitted@[x2 as int] {
                        if emitted0[x2 as int] {
                            assert(spec_in_batches(batches0, x2));
                            let (bi, jj) = choose|bi: int, jj: int|
                                0 <= bi < batches0.len() && 0 <= jj < batches0[bi].len()
                                    && batches0[bi][jj] == x2;
                            assert(bvs[bi][jj] == x2);
                        } else {
                            let l = choose|l: int| 0 <= l < bv.len() && bv[l] == x2;
                            assert(bvs[bvs.len() - 1][l] == x2);
                        }
                    }
                    if spec_in_batches(bvs, x2) {
                        let (bi, jj) = choose|bi: int, jj: int|
                            0 <= bi < bvs.len() && 0 <= jj < bvs[bi].len() && bvs[bi][jj] == x2;
                        if bi < batches0.len() {
                            assert(batches0[bi][jj] == x2);
                            assert(spec_in_batches(batches0, x2));
                        } else {
                            assert(bv[jj] == x2);
                        }
                    }
                };
            }
            let new_remaining = count_unemitted(&emitted);
            proof {
                lemma_count_monotone_strict(emitted0, emitted@, n as int, bv[0] as int);
                lemma_count_bound(emitted@, n as int);
            }
            remaining = new_remaining;
        }
        proof {
            lemma_count_bound(emitted@, n as int);
            lemma_count_all_emitted(emitted@, n as int);
        }
        Ok(batches)
    }
}

/// The length of the last batch.
fn batch_len_of(batches: &Vec<Vec<usize>>) -> (r: usize)
    requires
        batches@.len() > 0,
    ensures
        r == batches@[batches@.len() - 1]@.len(),
{
    batches[batches.len() - 1].len()
}

/// How many of the first `n` flags are set.
pub open spec fn count_emitted(flags: Seq<bool>, n: int) -> int
    decreases n,
{
    if n <= 0 {
        0
    } else {
        count_emitted(flags, n - 1) + (if flags[n - 1] {
            1int
        } else {
            0int
        })
    }
}

/// Count the flags not yet set.
fn count_unemitted(emitted: &Vec<bool>) -> (r: usize)
    ensures
        r == emitted@.len() - count_emitted(emitted@, emitted@.len() as int),
{
    let n = emitted.len();
    let mut c: usize = 0;
    let mut i: usize = 0;
    while i < n
        invariant
            n == emitted@.len(),
            0 <= i <= n,
            c == i - count_emitted(emitted@, i as int),
            c <= i,
        decreases n - i,
    {
        proof {
            lemma_count_bound(emitted@, i as int);
        }
        if !emitted[i] {
            c += 1;
        }
        i += 1;
    }
    c
}

/// Setting one more flag, while none clears, strictly raises the count.
proof fn lemma_count_monotone_strict(before: Seq<bool>, after: Seq<bool>, n: int, x: int)
    requires
        before.len() == after.len(),
        n <= before.len(),
        0 <= x < n,
        forall|i: int| 0 <= i < before.len() && before[i] ==> after[i],
        after[x],
        !before[x],
    ensures
        count_emitted(after, n) >= count_emitted(before, n) + 1,
    decreases n,
{
    lemma_count_monotone(before, after, n);
    if x == n - 1 {
        lemma_count_monotone(before, after, n - 1);
    } else {
        lemma_count_monotone_strict(before, after, n - 1, x);
    }
}

/// Where no flag clears, the count does not fall.
proof fn lemma_count_monotone(before: Seq<bool>, after: Seq<bool>, n: int)
    requires
        before.len() == after.len(),
        n <= before.len(),
        forall|i: int| 0 <= i < before.len() && before[i] ==> after[i],
    ensures
        count_emitted(after, n) >= count_emitted(before, n),
    decreases n,
{
    if n > 0 {
        lemma_count_monotone(before, after, n - 1);
    }
}

/// Where every flag of the first `n` is set, the count is `n`; where the
/// count is `n`, every flag is set.
proof fn lemma_count_all_emitted(flags: Seq<bool>, n: int)
    requires
        n <= flags.len(),
        count_emitted(flags, n) >= n,
    ensures
        forall|x: int| 0 <= x < n ==> flags[x],
    decreases n,
{
    if n > 0 {
        lemma_count_bound(flags, n - 1);
        lemma_count_all_emitted(flags, n - 1);
    }
}

/// The count of the first `n` flags is at most `n`.
proof fn lemma_count_bound(flags: Seq<bool>, n: int)
    requires
        n >= 0,
    ensures
        count_emitted(flags, n) <= n,
        count_emitted(flags, n) >= 0,
    decreases n,
{
    if n > 0 {
        lemma_count_bound(flags, n - 1);
    }
}


/// Setting the next batch entry's flag keeps the running description of
/// which flags are set.
proof fn lemma_flags_step(
    pre: Seq<bool>,
    post: Seq<bool>,
    em0: Seq<bool>,
    bv: Seq<usize>,
    j: int,
    n: int,
)
    requires
        0 < j <= bv.len(),
        pre.len() == n,
        post.len() == n,
        em0.len() == n,
        (bv[j - 1] as int) < n,
        post == pre.update(bv[j - 1] as int, true),
        forall|x2: int|
            0 <= x2 < n ==> (pre[x2] <==> (em0[x2] || (exists|l: int|
                0 <= l < j - 1 && (#[trigger] bv[l]) == x2))),
    ensures
        forall|x2: int|
            0 <= x2 < n ==> (post[x2] <==> (em0[x2] || (exists|l: int|
                0 <= l < j && (#[trigger] bv[l]) == x2))),
{
    assert forall|x2: int|
        0 <= x2 < n implies (post[x2] <==> (em0[x2] || (exists|l: int|
            0 <= l < j && (#[trigger] bv[l]) == x2))) by {
        if x2 == bv[j - 1] {
            assert(bv[j - 1] == x2);
            assert(post[x2]);
        } else {
            assert(post[x2] == pre[x2]);
            if exists|l: int| 0 <= l < j && (#[trigger] bv[l]) == x2 {
                let l = choose|l: int| 0 <= l < j && (#[trigger] bv[l]) == x2;
                assert(l < j - 1);
            }
            if exists|l: int| 0 <= l < j - 1 && (#[trigger] bv[l]) == x2 {
                let l = choose|l: int| 0 <= l < j - 1 && (#[trigger] bv[l]) == x2;
                assert(0 <= l < j && bv[l] == x2);
            }
        }
    };
}


/// The flags after setting each listed index in turn.
pub open spec fn mark_seq(flags: Seq<bool>, items: Seq<usize>) -> Seq<bool>
    decreases items.len(),
{
    if items.len() == 0 {
        flags
    } else {
        mark_seq(flags, items.drop_last()).update(items.last() as int, true)
    }
}

/// Marking sets exactly the listed indices.
proof fn lemma_mark_seq(flags: Seq<bool>, items: Seq<usize>)
    requires
        forall|l: int| 0 <= l < items.len() ==> (#[trigger] items[l] as int) < flags.len(),
    ensures
        mark_seq(flags, items).len() == flags.len(),
        forall|x: int|
            0 <= x < flags.len() ==> ((#[trigger] mark_seq(flags, items)[x]) <==> (flags[x] || (
            exists|l: int| 0 <= l < items.len() && (#[trigger] items[l] as int) == x))),
    decreases items.len(),
{
    if items.len() > 0 {
        let prefix = items.drop_last();
        lemma_mark_seq(flags, prefix);
        let m1 = mark_seq(flags, prefix);
        let m2 = mark_seq(flags, items);
        assert(m2 == m1.update(items.last() as int, true));
        assert forall|x: int|
            0 <= x < flags.len() implies ((#[trigger] m2[x]) <==> (flags[x] || (exists|l: int|
                0 <= l < items.len() && (#[trigger] items[l] as int) == x))) by {
            if x == items.last() as int {
                assert(items[items.len() - 1] as int == x);
                assert(m2[x]);
            } else {
                assert(m2[x] == m1[x]);
                if exists|l: int| 0 <= l < prefix.len() && (#[trigger] prefix[l] as int) == x {
                    let l = choose|l: int|
                        0 <= l < prefix.len() && (#[trigger] prefix[l] as int) == x;
                    assert(items[l] as int == x);
                }
                if exists|l: int| 0 <= l < items.len() && (#[trigger] items[l] as int) == x {
                    let l = choose|l: int|
                        0 <= l < items.len() && (#[trigger] items[l] as int) == x;
                    assert(l < items.len() - 1);
                    assert(prefix[l] as int == x);
                }
            }
        };
    }
}

/// Set the flag of every batch entry.
fn mark_batch(emitted: &mut Vec<bool>, batch: &Vec<usize>)
    requires
        forall|l: int| 0 <= l < batch@.len() ==> (#[trigger] batch@[l] as int) < old(
            emitted,
        )@.len(),
    ensures
        final(emitted)@.len() == old(emitted)@.len(),
        final(emitted)@ == mark_seq(old(emitted)@, batch@),
        forall|x: int|
            0 <= x < old(emitted)@.len() ==> ((#[trigger] final(emitted)@[x]) <==> (old(
                emitted,
            )@[x] || (exists|l: int|
                0 <= l < batch@.len() && (#[trigger] batch@[l] as int) == x))),
{
    let ghost em0 = emitted@;
    let nb = batch.len();
    let mut j: usize = 0;
    proof {
        assert(batch@.take(0) =~= Seq::<usize>::empty());
    }
    while j < nb
        invariant
            nb == batch@.len(),
            emitted@.len() == em0.len(),
            forall|l: int| 0 <= l < batch@.len() ==> (#[trigger] batch@[l] as int) < em0.len(),
            0 <= j <= nb,
            emitted@ == mark_seq(em0, batch@.take(j as int)),
        decreases nb - j,
    {
        let xx = batch[j];
        emitted[xx] = true;
        j += 1;
        proof {
            let cur = batch@.take(j as int);
            assert(cur.drop_last() =~= batch@.take(j - 1));
            assert(cur.last() == batch@[j - 1]);
            assert(emitted@ =~= mark_seq(em0, cur));
        }
    }
    proof {
        assert(batch@.take(nb as int) =~= batch@);
        lemma_mark_seq(em0, batch@);
    }
}

} // verus!
