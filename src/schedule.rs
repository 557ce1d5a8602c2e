use vstd::prelude::*;
use crate::flow::FlowTree;

verus! {

/// `order` visits every flow of `t` exactly once, each after all of its
/// children.
pub open spec fn valid_postorder(t: FlowTree, order: Seq<usize>) -> bool {
    &&& order.no_duplicates()
    &&& forall|q: int| 0 <= q < order.len() ==> #[trigger] order[q] < t.len()
    &&& forall|j: usize| j < t.len() ==> #[trigger] order.contains(j)
    &&& forall|p: int, q: int|
        0 <= p < order.len() && 0 <= q < order.len() && p != q
            && t.parent(order[q] as int) == order[p] as int ==> q < p
}

/// Number of flows among `kids` not yet marked in `done`.
pub open spec fn count_undone(kids: Seq<usize>, done: Seq<bool>) -> nat
    decreases kids.len(),
{
    if kids.len() == 0 {
        0
    } else {
        count_undone(kids.drop_last(), done) + if done[kids.last() as int] { 0nat } else { 1nat }
    }
}

/// Number of flows not yet marked in `done`.
pub open spec fn count_false(done: Seq<bool>) -> nat
    decreases done.len(),
{
    if done.len() == 0 {
        0
    } else {
        count_false(done.drop_last()) + if done.last() { 0nat } else { 1nat }
    }
}

proof fn lemma_count_undone_update(kids: Seq<usize>, done: Seq<bool>, j: usize)
    requires
        kids.no_duplicates(),
        j < done.len(),
        !done[j as int],
        forall|k: int| 0 <= k < kids.len() ==> #[trigger] kids[k] < done.len(),
    ensures
        count_undone(kids, done.update(j as int, true)) + (if kids.contains(j) { 1int } else { 0int })
            == count_undone(kids, done),
    decreases kids.len(),
{
    if kids.len() > 0 {
        let rest = kids.drop_last();
        assert forall|k: int| 0 <= k < rest.len() implies #[trigger] rest[k] < done.len() by {
            assert(rest[k] == kids[k]);
        }
        assert(rest.no_duplicates()) by {
            assert forall|a: int, b: int| 0 <= a < rest.len() && 0 <= b < rest.len() && a != b implies rest[a] != rest[b] by {
                assert(rest[a] == kids[a] && rest[b] == kids[b]);
            }
        }
        lemma_count_undone_update(rest, done, j);
        let u = done.update(j as int, true);
        assert(kids.last() < done.len());
        assert(count_undone(kids, u) == count_undone(rest, u) + if u[kids.last() as int] { 0nat } else { 1nat });
        assert(count_undone(kids, done) == count_undone(rest, done) + if done[kids.last() as int] { 0nat } else { 1nat });
        if kids.last() != j {
            assert(u[kids.last() as int] == done[kids.last() as int]);
        }
        if kids.contains(j) {
            let k = choose|k: int| 0 <= k < kids.len() && kids[k] == j;
            if k == kids.len() - 1 {
                assert(!rest.contains(j)) by {
                    if rest.contains(j) {
                        let k2 = choose|k2: int| 0 <= k2 < rest.len() && rest[k2] == j;
                        assert(kids[k2] == kids[k]);
                    }
                }
            } else {
                assert(rest[k] == j);
                assert(kids.last() != j);
            }
        } else {
            assert(!rest.contains(j)) by {
                if rest.contains(j) {
                    let k2 = choose|k2: int| 0 <= k2 < rest.len() && rest[k2] == j;
                    assert(kids[k2] == j);
                }
            }
            assert(kids.last() != j);
        }
    }
}

proof fn lemma_count_undone_zero(kids: Seq<usize>, done: Seq<bool>)
    ensures
        (count_undone(kids, done) == 0) == (forall|k: int| 0 <= k < kids.len() ==> done[#[trigger] kids[k] as int]),
    decreases kids.len(),
{
    if kids.len() > 0 {
        let rest = kids.drop_last();
        lemma_count_undone_zero(rest, done);
        if count_undone(kids, done) == 0 {
            assert forall|k: int| 0 <= k < kids.len() implies done[#[trigger] kids[k] as int] by {
                if k < kids.len() - 1 {
                    assert(rest[k] == kids[k]);
                }
            }
        }
        if forall|k: int| 0 <= k < kids.len() ==> done[#[trigger] kids[k] as int] {
            assert forall|k: int| 0 <= k < rest.len() implies done[#[trigger] rest[k] as int] by {
                assert(rest[k] == kids[k]);
            }
            assert(done[kids[kids.len() - 1] as int]);
        }
    }
}

proof fn lemma_count_false_update(done: Seq<bool>, j: int)
    requires
        0 <= j < done.len(),
        !done[j],
    ensures
        count_false(done.update(j, true)) + 1 == count_false(done),
    decreases done.len(),
{
    let u = done.update(j, true);
    if j < done.len() - 1 {
        assert(u.drop_last() =~= done.drop_last().update(j, true));
        lemma_count_false_update(done.drop_last(), j);
    } else {
        assert(u.drop_last() =~= done.drop_last());
    }
}

/// Some flow that is not done has all of its children done.
proof fn lemma_some_flow_ready(t: FlowTree, done: Seq<bool>, j: int) -> (m: int)
    requires
        t.wf(),
        done.len() == t.len(),
        0 <= j < t.len(),
        !done[j],
    ensures
        0 <= m < t.len(),
        !done[m],
        forall|k: int| 0 <= k < t.kids(m).len() ==> done[#[trigger] t.kids(m)[k] as int],
    decreases t.len() - j,
{
    if forall|k: int| 0 <= k < t.kids(j).len() ==> done[#[trigger] t.kids(j)[k] as int] {
        j
    } else {
        let k = choose|k: int| 0 <= k < t.kids(j).len() && !done[#[trigger] t.kids(j)[k] as int];
        let c = t.kids(j)[k] as int;
        assert(0 < c < t.len() && t.parent(c) == j);
        lemma_some_flow_ready(t, done, c)
    }
}

/// The leaves of the flow tree: the flows without children, in index order.
pub fn leaf_set(t: &FlowTree) -> (leaves: Vec<usize>)
    requires
        t.wf(),
    ensures
        leaves@.no_duplicates(),
        forall|j: usize| leaves@.contains(j) <==> (j < t.len() && t.kids(j as int).len() == 0),
{
    let n = t.flows.len();
    let mut leaves: Vec<usize> = Vec::new();
    let mut i: usize = 0;
    while i < n
        invariant
            n == t.len(),
            t.children@.len() == n,
            0 <= i <= n,
            leaves@.no_duplicates(),
            forall|k: int| 0 <= k < leaves@.len() ==> #[trigger] leaves@[k] < i,
            forall|j: usize| leaves@.contains(j) <==> (j < i && t.kids(j as int).len() == 0),
        decreases n - i,
    {
        let ghost before = leaves@;
        if t.children[i].len() == 0 {
            leaves.push(i);
            assert(leaves@.last() == i);
            assert forall|j: usize| #[trigger] leaves@.contains(j) <==> (before.contains(j) || j == i) by {
                if leaves@.contains(j) {
                    let k = choose|k: int| 0 <= k < leaves@.len() && leaves@[k] == j;
                    if k < before.len() {
                        assert(before[k] == j);
                    }
                }
                if before.contains(j) {
                    let k = choose|k: int| 0 <= k < before.len() && before[k] == j;
                    assert(leaves@[k] == j);
                }
            }
        }
        i = i + 1;
    }
    leaves
}

/// Orders the flows of `t` for a postorder phase the way a pool of
/// `workers` workers would take them: the pool starts from the leaf set,
/// at each step the worker whose turn it is takes a ready flow, and a flow
/// becomes ready when its last child is finished.
#[verifier::rlimit(100)]
pub fn postorder_schedule(t: &FlowTree, workers: usize) -> (order: Vec<usize>)
    requires
        t.wf(),
        workers >= 1,
    ensures
        valid_postorder(*t, order@),
        order@.len() == t.len(),
{
    let n = t.flows.len();
    let mut ready = leaf_set(t);
    let mut remaining: Vec<usize> = Vec::new();
    let mut done: Vec<bool> = Vec::new();
    let mut i: usize = 0;
    while i < n
        invariant
            n == t.len(),
            t.children@.len() == n,
            0 <= i <= n,
            remaining@.len() == i,
            done@.len() == i,
            forall|j: int| 0 <= j < i ==> #[trigger] remaining@[j] == t.kids(j).len(),
            forall|j: int| 0 <= j < i ==> !#[trigger] done@[j],
        decreases n - i,
    {
        remaining.push(t.children[i].len());
        done.push(false);
        i = i + 1;
    }
    proof {
        assert forall|j: int| 0 <= j < n implies #[trigger] remaining@[j] == count_undone(t.kids(j), done@) by {
            lemma_count_undone_zero(t.kids(j), done@);
            lemma_count_undone_bound(t.kids(j), done@);
            lemma_count_undone_all(t.kids(j), done@);
        }
        lemma_count_false_all(done@);
        assert forall|k: int| 0 <= k < ready@.len() implies #[trigger] ready@[k] < n && !done@[ready@[k] as int]
            && remaining@[ready@[k] as int] == 0 by {
            assert(ready@.contains(ready@[k]));
        }
        assert forall|j: int| 0 <= j < n && !done@[j] && #[trigger] remaining@[j] == 0 implies ready@.contains(j as usize) by {
            assert(t.kids(j).len() == 0);
        }
    }
    let mut order: Vec<usize> = Vec::new();
    let mut turn: usize = 0;
    while ready.len() > 0
        invariant
            t.wf(),
            n == t.len(),
            workers >= 1,
            turn < workers,
            remaining@.len() == n,
            done@.len() == n,
            order@.no_duplicates(),
            forall|q: int| 0 <= q < order@.len() ==> #[trigger] order@[q] < n && done@[order@[q] as int],
            forall|j: int| 0 <= j < n && #[trigger] done@[j] ==> order@.contains(j as usize),
            forall|j: int| 0 <= j < n ==> #[trigger] remaining@[j] == count_undone(t.kids(j), done@),
            ready@.no_duplicates(),
            forall|k: int| 0 <= k < ready@.len() ==> #[trigger] ready@[k] < n && !done@[ready@[k] as int]
                && remaining@[ready@[k] as int] == 0,
            forall|j: int| 0 <= j < n && !done@[j] && #[trigger] remaining@[j] == 0 ==> ready@.contains(j as usize),
            forall|p: int, q: int|
                0 <= p < order@.len() && 0 <= q < order@.len() && p != q
                    && t.parent(order@[q] as int) == order@[p] as int ==> q < p,
            forall|j: int| 0 <= j < n && #[trigger] done@[j] ==> remaining@[j] == 0,
            order@.len() + count_false(done@) == n,
        decreases count_false(done@),
    {
        let idx = if turn < ready.len() { turn } else { ready.len() - 1 };
        let ghost old_ready = ready@;
        let ghost old_done = done@;
        let ghost old_order = order@;
        let ghost old_remaining = remaining@;
        let j = ready.remove(idx);
        assert(j == old_ready[idx as int]);
        proof {
            lemma_count_undone_zero(t.kids(j as int), old_done);
            lemma_count_false_update(old_done, j as int);
            assert forall|i: int| 0 <= i < n implies
                count_undone(t.kids(i), old_done.update(j as int, true))
                    + (if t.kids(i).contains(j) { 1int } else { 0int }) == count_undone(t.kids(i), old_done) by {
                assert forall|k: int| 0 <= k < t.kids(i).len() implies #[trigger] t.kids(i)[k] < old_done.len() by {}
                lemma_count_undone_update(t.kids(i), old_done, j);
            }
        }
        done.set(j, true);
        order.push(j);
        proof {
            assert(!old_order.contains(j)) by {
                if old_order.contains(j) {
                    let q = choose|q: int| 0 <= q < old_order.len() && old_order[q] == j;
                    assert(old_done[old_order[q] as int]);
                }
            }
            assert forall|p: int, q: int|
                0 <= p < order@.len() && 0 <= q < order@.len() && p != q
                    && t.parent(order@[q] as int) == order@[p] as int implies q < p by {
                if q == old_order.len() && p < q {
                    let par = order@[p] as int;
                    assert(old_done[par]);
                    assert(old_remaining[par] == 0);
                    lemma_count_undone_zero(t.kids(par), old_done);
                    if j == 0 {
                        assert(t.parent(0) == 0);
                        assert(old_order[p] == j);
                    } else {
                        assert(t.kids(t.parent(j as int)).contains(j));
                        let k = choose|k: int| 0 <= k < t.kids(par).len() && t.kids(par)[k] == j;
                        assert(old_done[t.kids(par)[k] as int]);
                    }
                }
            }
            assert forall|jj: int| 0 <= jj < n && #[trigger] done@[jj] implies order@.contains(jj as usize) by {
                if jj == j as int {
                    assert(order@[old_order.len() as int] == j);
                } else {
                    assert(old_done[jj]);
                    let q = choose|q: int| 0 <= q < old_order.len() && old_order[q] == jj as usize;
                    assert(order@[q] == jj as usize);
                }
            }
        }
        if j != 0 {
            let p = t.flows[j].parent;
            proof {
                assert(t.parent(j as int) == p as int);
                assert(t.kids(p as int).contains(j));
                assert(remaining@[p as int] == old_remaining[p as int]);
                assert(old_remaining[p as int] >= 1);
            }
            remaining.set(p, remaining[p] - 1);
            if remaining[p] == 0 {
                proof {
                    assert(!ready@.contains(p)) by {
                        if ready@.contains(p) {
                            let k = choose|k: int| 0 <= k < ready@.len() && ready@[k] == p;
                            assert(old_ready.contains(p));
                            let k2 = choose|k2: int| 0 <= k2 < old_ready.len() && old_ready[k2] == p;
                            assert(old_remaining[old_ready[k2] as int] == 0);
                        }
                    }
                }
                ready.push(p);
            }
        }
        proof {
            assert forall|i: int| 0 <= i < n implies #[trigger] remaining@[i] == count_undone(t.kids(i), done@) by {
                if t.kids(i).contains(j) {
                    let k = choose|k: int| 0 <= k < t.kids(i).len() && t.kids(i)[k] == j;
                    assert(t.parent(j as int) == i);
                }
            }
            assert forall|jj: int| 0 <= jj < n && #[trigger] done@[jj] implies remaining@[jj] == 0 by {
                if jj != j as int && j != 0 && jj == t.flows@[j as int].parent as int {
                    assert(t.kids(jj).contains(j));
                    assert(old_done[jj]);
                    lemma_count_undone_zero(t.kids(jj), old_done);
                    let k = choose|k: int| 0 <= k < t.kids(jj).len() && t.kids(jj)[k] == j;
                    assert(old_done[t.kids(jj)[k] as int]);
                }
            }
            assert forall|k: int| 0 <= k < ready@.len() implies #[trigger] ready@[k] < n && !done@[ready@[k] as int]
                && remaining@[ready@[k] as int] == 0 by {
                if k < old_ready.len() - 1 {
                    let k0 = if k < idx { k } else { k + 1 };
                    assert(ready@[k] == old_ready[k0]);
                    assert(old_ready[k0] != j);
                    if j != 0 {
                        let p = t.flows@[j as int].parent as int;
                        if old_ready[k0] as int == p {
                            assert(t.kids(p).contains(j));
                            lemma_count_undone_zero(t.kids(p), old_done);
                            let kk = choose|kk: int| 0 <= kk < t.kids(p).len() && t.kids(p)[kk] == j;
                            assert(!old_done[t.kids(p)[kk] as int]);
                        }
                    }
                }
            }
            assert forall|jj: int| 0 <= jj < n && !done@[jj] && #[trigger] remaining@[jj] == 0 implies ready@.contains(jj as usize) by {
                if j != 0 && jj == t.flows@[j as int].parent as int {
                    assert(ready@.last() == jj as usize || old_remaining[jj] == 0);
                    if old_remaining[jj] == 0 {
                        assert(t.kids(jj).contains(j));
                        lemma_count_undone_zero(t.kids(jj), old_done);
                        let kk = choose|kk: int| 0 <= kk < t.kids(jj).len() && t.kids(jj)[kk] == j;
                        assert(!old_done[t.kids(jj)[kk] as int]);
                    }
                } else {
                    assert(old_remaining[jj] == remaining@[jj]);
                    assert(old_ready.contains(jj as usize));
                    let k0 = choose|k0: int| 0 <= k0 < old_ready.len() && old_ready[k0] == jj as usize;
                    assert(k0 != idx);
                    let k = if k0 < idx { k0 } else { k0 - 1 };
                    assert(ready@[k] == jj as usize);
                }
            }
        }
        turn = if turn + 1 < workers { turn + 1 } else { 0 };
    }
    proof {
        assert forall|jj: int| 0 <= jj < n implies #[trigger] done@[jj] by {
            if !done@[jj] {
                let m = lemma_some_flow_ready(*t, done@, jj);
                lemma_count_undone_zero(t.kids(m), done@);
                assert(remaining@[m] == 0);
                assert(ready@.contains(m as usize));
            }
        }
        assert forall|jj: usize| jj < n implies #[trigger] order@.contains(jj) by {
            assert(done@[jj as int]);
        }
        lemma_count_false_all_done(done@);
    }
    order
}

proof fn lemma_count_undone_bound(kids: Seq<usize>, done: Seq<bool>)
    ensures
        count_undone(kids, done) <= kids.len(),
    decreases kids.len(),
{
    if kids.len() > 0 {
        lemma_count_undone_bound(kids.drop_last(), done);
    }
}

proof fn lemma_count_undone_all(kids: Seq<usize>, done: Seq<bool>)
    requires
        forall|k: int| 0 <= k < kids.len() ==> !done[#[trigger] kids[k] as int],
    ensures
        count_undone(kids, done) == kids.len(),
    decreases kids.len(),
{
    if kids.len() > 0 {
        let rest = kids.drop_last();
        assert forall|k: int| 0 <= k < rest.len() implies !done[#[trigger] rest[k] as int] by {
            assert(rest[k] == kids[k]);
        }
        lemma_count_undone_all(rest, done);
    }
}

proof fn lemma_count_false_all(done: Seq<bool>)
    requires
        forall|j: int| 0 <= j < done.len() ==> !#[trigger] done[j],
    ensures
        count_false(done) == done.len(),
    decreases done.len(),
{
    if done.len() > 0 {
        lemma_count_false_all(done.drop_last());
    }
}

proof fn lemma_count_false_all_done(done: Seq<bool>)
    requires
        forall|j: int| 0 <= j < done.len() ==> #[trigger] done[j],
    ensures
        count_false(done) == 0,
    decreases done.len(),
{
    if done.len() > 0 {
        lemma_count_false_all_done(done.drop_last());
    }
}

/// In a valid postorder, each child of the flow at position `p` stands at
/// an earlier position.
pub proof fn lemma_kid_before(t: FlowTree, order: Seq<usize>, p: int, k: int) -> (q: int)
    requires
        t.wf(),
        valid_postorder(t, order),
        0 <= p < order.len(),
        0 <= k < t.kids(order[p] as int).len(),
    ensures
        0 <= q < p,
        order[q] == t.kids(order[p] as int)[k],
{
    let m = order[p] as int;
    let c = t.kids(m)[k];
    assert(0 < c < t.len() && t.parent(c as int) == m);
    assert(order.contains(c));
    let q = choose|q: int| 0 <= q < order.len() && order[q] == c;
    assert(q != p);
    q
}

/// Every flow after all of its children: the reverse of index order.
pub fn sequential_postorder(t: &FlowTree) -> (order: Vec<usize>)
    requires
        t.wf(),
    ensures
        valid_postorder(*t, order@),
        order@.len() == t.len(),
        forall|q: int| 0 <= q < order@.len() ==> #[trigger] order@[q] == t.len() - 1 - q,
{
    let n = t.flows.len();
    let mut order: Vec<usize> = Vec::new();
    let mut i: usize = n;
    while i > 0
        invariant
            n == t.len(),
            0 <= i <= n,
            order@.len() == n - i,
            forall|q: int| 0 <= q < order@.len() ==> #[trigger] order@[q] == n - 1 - q,
        decreases i,
    {
        i = i - 1;
        order.push(i);
    }
    proof {
        assert forall|j: usize| j < n implies #[trigger] order@.contains(j) by {
            assert(order@[n - 1 - j] == j);
        }
        assert forall|p: int, q: int|
            0 <= p < order@.len() && 0 <= q < order@.len() && p != q
                && t.parent(order@[q] as int) == order@[p] as int implies q < p by {
            let c = order@[q] as int;
            if c == 0 {
                assert(order@[p] == 0);
            } else {
                assert(t.parent(c) < c);
            }
        }
    }
    order
}

} // verus!
