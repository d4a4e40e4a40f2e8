//! The search tree: an arena of nodes, the root at index 0, each node linked
//! to its parent (always at a smaller index) and to its children.

use vstd::prelude::*;
use crate::mcts::node::Node;
use crate::encoding::{ia_to_real, index_has_move, move_in, origin_pawn_in, lemma_decode_shape};
use crate::moves::UciMove;
use crate::position::{Position, legal_in};

verus! {

/// Why a node could not be expanded.
#[derive(Clone, Copy, Debug, PartialEq, Eq, Structural)]
pub enum ExpandError {
    /// This move index has no move.
    InvalidIndex(usize),
    /// The move of this index is not legal in the node's position.
    IllegalMove(usize),
}

/// The root's children ranked for a report: the positions (in the root's
/// child links) of the `x` most visited first, and the moves of the five
/// most visited.
pub struct TopMoves {
    pub report: Vec<usize>,
    pub best: Vec<UciMove>,
}

/// A node drawn in the graph of the tree, with the children drawn beside
/// it: their moves and indices.
pub struct DotNode {
    pub index: usize,
    pub edges: Vec<(UciMove, usize)>,
}

/// The search tree and the deepest level reached in it.
pub struct MctsTree<S> {
    nodes: Vec<Node<S>>,
    profondeur: u8,
}

/// The arena is a tree rooted at 0: every other node's parent lies before
/// it, and every child link points to a node whose parent is the linking
/// node.
pub open spec fn nodes_wf<S>(nodes: Seq<Node<S>>) -> bool {
    &&& nodes.len() > 0
    &&& nodes[0].parent is None
    &&& forall|i: int|
        #![trigger nodes[i].parent]
        0 < i < nodes.len() ==> (nodes[i].parent matches Some(p) && p < i)
    &&& forall|i: int, k: int|
        #![trigger nodes[i].children@[k]]
        0 <= i < nodes.len() && 0 <= k < nodes[i].children@.len() ==> {
            let c = nodes[i].children@[k].1 as int;
            &&& i < c < nodes.len()
            &&& nodes[c].parent == Some(i as usize)
        }
}

/// The nodes from `i` up to the root, `i` first.
pub open spec fn path_to_root<S>(nodes: Seq<Node<S>>, i: int) -> Seq<int>
    decreases i,
{
    if i < 0 {
        Seq::empty()
    } else {
        match nodes[i].parent {
            Some(p) => if p < i {
                seq![i].add(path_to_root(nodes, p as int))
            } else {
                seq![i]
            },
            None => seq![i],
        }
    }
}

/// The two nodes agree but for their visit counts.
pub open spec fn same_but_visits<S>(a: Node<S>, b: Node<S>) -> bool {
    &&& a.parent == b.parent
    &&& a.children == b.children
    &&& a.stats == b.stats
    &&& a.is_expanded == b.is_expanded
    &&& a.is_pending == b.is_pending
}

/// Every element of the path from `i` is at most `i`, the first is `i`, and
/// the elements strictly decrease.
pub proof fn lemma_path_shape<S>(nodes: Seq<Node<S>>, i: int)
    requires
        0 <= i < nodes.len(),
        nodes_wf(nodes),
    ensures
        path_to_root(nodes, i).len() >= 1,
        path_to_root(nodes, i)[0] == i,
        forall|a: int|
            0 <= a < path_to_root(nodes, i).len() ==> 0 <= #[trigger] path_to_root(nodes, i)[a] <= i,
        forall|a: int, b: int|
            0 <= a < b < path_to_root(nodes, i).len() ==> path_to_root(nodes, i)[a] > path_to_root(
                nodes,
                i,
            )[b],
        path_to_root(nodes, i).last() == 0,
    decreases i,
{
    if i > 0 {
        let p = nodes[i].parent.unwrap() as int;
        lemma_path_shape(nodes, p);
        let rest = path_to_root(nodes, p);
        assert(path_to_root(nodes, i) == seq![i].add(rest));
        assert forall|a: int, b: int|
            0 <= a < b < path_to_root(nodes, i).len() implies path_to_root(nodes, i)[a]
            > path_to_root(nodes, i)[b] by {
            if a > 0 {
                assert(path_to_root(nodes, i)[a] == rest[a - 1]);
            }
            assert(path_to_root(nodes, i)[b] == rest[b - 1]);
        }
    }
}

/// Visit counts of the root's children, in the order of its child links.
pub open spec fn root_child_visits<S>(nodes: Seq<Node<S>>) -> Seq<u32> {
    Seq::new(nodes[0].children@.len(), |k: int| nodes[nodes[0].children@[k].1 as int].visit_count)
}

/// Position of the last largest value, -1 for none.
pub open spec fn last_max_pos(v: Seq<u32>) -> int
    decreases v.len(),
{
    if v.len() == 0 {
        -1
    } else {
        let p = last_max_pos(v.drop_last());
        if p < 0 || v.last() >= v[p] {
            v.len() - 1
        } else {
            p
        }
    }
}

/// The last largest value is a largest value, and no later value equals it.
pub proof fn lemma_last_max_pos(v: Seq<u32>)
    ensures
        v.len() == 0 <==> last_max_pos(v) == -1,
        v.len() > 0 ==> 0 <= last_max_pos(v) < v.len(),
        v.len() > 0 ==> forall|k: int| 0 <= k < v.len() ==> #[trigger] v[k] <= v[last_max_pos(v)],
        v.len() > 0 ==> forall|k: int| last_max_pos(v) < k < v.len() ==> #[trigger] v[k] < v[last_max_pos(v)],
    decreases v.len(),
{
    if v.len() > 0 {
        let w = v.drop_last();
        lemma_last_max_pos(w);
        assert forall|k: int| 0 <= k < w.len() implies #[trigger] v[k] == w[k] by {}
    }
}

/// Positions ranked by visits, most first, and among equal visits in link
/// order: `r` lists every position of `v` once, in that order.
pub open spec fn is_ranking(v: Seq<u32>, r: Seq<usize>) -> bool {
    &&& r.len() == v.len()
    &&& forall|a: int| 0 <= a < r.len() ==> #[trigger] r[a] < v.len()
    &&& r.no_duplicates()
    &&& forall|x: int| 0 <= x < v.len() ==> #[trigger] r.contains(x as usize)
    &&& forall|a: int, b: int|
        #![trigger r[a], r[b]]
        0 <= a < b < r.len() ==> v[r[a] as int] > v[r[b] as int] || (v[r[a] as int] == v[r[b]
            as int] && r[a] < r[b])
}

proof fn lemma_insert_ranking(v: Seq<u32>, r: Seq<usize>, k: int, q: int)
    requires
        0 <= k < v.len(),
        k <= usize::MAX,
        is_ranking(v.take(k), r),
        0 <= q <= r.len(),
        forall|a: int| 0 <= a < q ==> v[#[trigger] r[a] as int] >= v[k],
        q < r.len() ==> v[r[q] as int] < v[k],
    ensures
        is_ranking(v.take(k + 1), r.insert(q, k as usize)),
{
    let w = v.take(k);
    let w1 = v.take(k + 1);
    let n = r.insert(q, k as usize);
    r.insert_ensures(q, k as usize);
    assert forall|a: int| 0 <= a < r.len() implies #[trigger] r[a] < k && v[r[a] as int] == w[r[a] as int] by {}
    assert forall|a: int| 0 <= a < n.len() implies #[trigger] n[a] < w1.len() && w1[n[a] as int] == v[n[a] as int] by {
        if a < q {
            assert(n[a] == r[a]);
        } else if a > q {
            assert(n[a] == r[a - 1]);
        }
    }
    assert forall|x: int| 0 <= x < w1.len() implies #[trigger] n.contains(x as usize) by {
        if x < k {
            assert(w.len() == k);
            assert(r.contains(x as usize));
            let a = choose|a: int| 0 <= a < r.len() && r[a] == x as usize;
            if a < q {
                assert(n[a] == x as usize);
            } else {
                assert(n[a + 1] == x as usize);
            }
        } else {
            assert(n[q] == x as usize);
        }
    }
    assert forall|a: int, b: int| 0 <= a < b < n.len() implies n[a] != n[b] by {
        if a < q && b < q {
            assert(n[a] == r[a] && n[b] == r[b]);
        } else if a < q && b == q {
            assert(n[a] == r[a]);
        } else if a < q {
            assert(n[a] == r[a] && n[b] == r[b - 1]);
        } else if a == q {
            assert(n[b] == r[b - 1]);
        } else {
            assert(n[a] == r[a - 1] && n[b] == r[b - 1]);
        }
    }
    assert forall|a: int, b: int|
        #![trigger n[a], n[b]]
        0 <= a < b < n.len() implies w1[n[a] as int] > w1[n[b] as int] || (w1[n[a] as int] == w1[n[b] as int] && n[a] < n[b]) by {
        if a < q && b < q {
            assert(n[a] == r[a] && n[b] == r[b]);
            assert(r[a] == r[a] && r[b] == r[b]);
        } else if a < q && b == q {
            assert(n[a] == r[a]);
        } else if a < q {
            assert(n[a] == r[a] && n[b] == r[b - 1]);
        } else if a == q {
            assert(n[b] == r[b - 1]);
            if b - 1 > q {
                assert(r[q] == r[q] && r[b - 1] == r[b - 1]);
            }
        } else {
            assert(n[a] == r[a - 1] && n[b] == r[b - 1]);
        }
    }
}

/// The nodes among the first `n` with at least `min_visits` visits, in
/// order.
pub open spec fn visible_nodes<S>(nodes: Seq<Node<S>>, min_visits: u32, n: int) -> Seq<int>
    decreases n,
{
    if n <= 0 {
        Seq::empty()
    } else if nodes[n - 1].visit_count >= min_visits {
        visible_nodes(nodes, min_visits, n - 1).push(n - 1)
    } else {
        visible_nodes(nodes, min_visits, n - 1)
    }
}

/// Whether an index stands for a move in the position of `fen`, and that
/// move is legal there.
pub open spec fn move_legal_at(fen: Seq<char>, index: int) -> bool {
    move_in(index, fen) matches Some(m) && legal_in(fen, m)
}

/// The `k`-th given move index is the first that stands for no legal move
/// of the position of `fen`.
pub open spec fn first_refused<S>(fen: Seq<char>, moves: Seq<(usize, S)>, k: int) -> bool {
    &&& forall|q: int| 0 <= q < k ==> move_legal_at(fen, #[trigger] moves[q].0 as int)
    &&& !move_legal_at(fen, moves[k].0 as int)
}

/// The error for a refused move index: it has no move, or its move is not
/// legal.
pub open spec fn refusal(i: usize) -> ExpandError {
    if index_has_move(i as int) {
        ExpandError::IllegalMove(i)
    } else {
        ExpandError::InvalidIndex(i)
    }
}

/// Whether every given move index stands for a legal move of the position
/// of `fen`.
pub open spec fn expandable<S>(fen: Seq<char>, moves: Seq<(usize, S)>) -> bool {
    forall|k: int| 0 <= k < moves.len() ==> move_legal_at(fen, #[trigger] moves[k].0 as int)
}

/// The child links whose child has at least `min_visits` visits, in order.
pub open spec fn visible_children<S>(
    nodes: Seq<Node<S>>,
    links: Seq<(UciMove, usize)>,
    min_visits: u32,
) -> Seq<(UciMove, usize)>
    decreases links.len(),
{
    if links.len() == 0 {
        Seq::empty()
    } else if nodes[links.last().1 as int].visit_count >= min_visits {
        visible_children(nodes, links.drop_last(), min_visits).push(links.last())
    } else {
        visible_children(nodes, links.drop_last(), min_visits)
    }
}

/// Law: the path from any node of a tree reaches the root and passes no
/// node twice, so each backpropagation counts exactly one visit at the root
/// and at each ancestor.
pub proof fn law_path_reaches_root<S>(nodes: Seq<Node<S>>, leaf: int)
    requires
        nodes_wf(nodes),
        0 <= leaf < nodes.len(),
    ensures
        path_to_root(nodes, leaf)[0] == leaf,
        path_to_root(nodes, leaf).last() == 0,
        path_to_root(nodes, leaf).contains(0),
        path_to_root(nodes, leaf).no_duplicates(),
{
    lemma_path_shape(nodes, leaf);
    let p = path_to_root(nodes, leaf);
    assert(p[p.len() - 1] == 0);
    assert forall|a: int, b: int| 0 <= a < b < p.len() implies p[a] != p[b] by {}
}

/// The ranking of the visits `v` (see [`is_ranking`]).
pub open spec fn ranking_of(v: Seq<u32>) -> Seq<usize> {
    choose|r: Seq<usize>| is_ranking(v, r)
}

proof fn lemma_ranking_prefix(v: Seq<u32>, r1: Seq<usize>, r2: Seq<usize>, a: int)
    requires
        v.len() <= usize::MAX,
        is_ranking(v, r1),
        is_ranking(v, r2),
        0 <= a <= v.len(),
    ensures
        forall|b: int| 0 <= b < a ==> #[trigger] r1[b] == r2[b],
    decreases a,
{
    if a > 0 {
        lemma_ranking_prefix(v, r1, r2, a - 1);
        let i = a - 1;
        let x = r1[i];
        let y = r2[i];
        if x != y {
            assert(y < v.len() && x < v.len());
            assert(r1.contains((y as int) as usize));
            let b1 = choose|b: int| 0 <= b < r1.len() && r1[b] == y;
            if b1 < i {
                assert(r2[b1] == y);
            }
            assert(r2.contains((x as int) as usize));
            let b2 = choose|b: int| 0 <= b < r2.len() && r2[b] == x;
            if b2 < i {
                assert(r1[b2] == r2[b2]);
            }
            assert(r1[i] == x && r1[b1] == y);
            assert(r2[i] == y && r2[b2] == x);
        }
    }
}

/// Law: the visits of the root's children have one ranking only.
pub proof fn law_ranking_unique(v: Seq<u32>, r1: Seq<usize>, r2: Seq<usize>)
    requires
        v.len() <= usize::MAX,
        is_ranking(v, r1),
        is_ranking(v, r2),
    ensures
        r1 == r2,
{
    lemma_ranking_prefix(v, r1, r2, v.len() as int);
    assert(r1 =~= r2);
}

/// The node with another visit count.
pub open spec fn with_visits<S>(n: Node<S>, v: int) -> Node<S> {
    Node { visit_count: v as u32, ..n }
}

/// The nodes after adding a virtual loss `vl` to each node of `path` in turn.
pub open spec fn add_along<S>(nodes: Seq<Node<S>>, path: Seq<usize>, vl: u32) -> Seq<Node<S>>
    decreases path.len(),
{
    if path.len() == 0 {
        nodes
    } else {
        let w = add_along(nodes, path.drop_last(), vl);
        let j = path.last() as int;
        w.update(j, with_visits(w[j], w[j].visit_count + vl))
    }
}

/// The nodes after taking a virtual loss `vl` back from each node of `path`
/// in turn.
pub open spec fn sub_along<S>(nodes: Seq<Node<S>>, path: Seq<usize>, vl: u32) -> Seq<Node<S>>
    decreases path.len(),
{
    if path.len() == 0 {
        nodes
    } else {
        let w = sub_along(nodes, path.drop_last(), vl);
        let j = path.last() as int;
        w.update(j, with_visits(w[j], w[j].visit_count - vl))
    }
}

/// Every node of `path` exists and, in turn, still has `vl` visits to give
/// back.
pub open spec fn can_sub_along<S>(nodes: Seq<Node<S>>, path: Seq<usize>, vl: u32) -> bool
    decreases path.len(),
{
    if path.len() == 0 {
        true
    } else {
        let j = path.last() as int;
        &&& can_sub_along(nodes, path.drop_last(), vl)
        &&& 0 <= j < nodes.len()
        &&& sub_along(nodes, path.drop_last(), vl)[j].visit_count >= vl
    }
}

/// Adding a virtual loss along a path of distinct nodes adds it once to
/// each of them.
pub proof fn lemma_add_along<S>(nodes: Seq<Node<S>>, path: Seq<usize>, vl: u32)
    requires
        nodes.len() <= usize::MAX,
        path.no_duplicates(),
        forall|a: int| 0 <= a < path.len() ==> #[trigger] path[a] < nodes.len(),
        forall|a: int| 0 <= a < path.len() ==> nodes[#[trigger] path[a] as int].visit_count + vl <= u32::MAX,
    ensures
        add_along(nodes, path, vl).len() == nodes.len(),
        forall|j: int|
            0 <= j < nodes.len() ==> #[trigger] add_along(nodes, path, vl)[j] == if path.contains(j as usize) {
                with_visits(nodes[j], nodes[j].visit_count + vl)
            } else {
                nodes[j]
            },
    decreases path.len(),
{
    if path.len() > 0 {
        let rest = path.drop_last();
        assert forall|a: int, b: int| 0 <= a < b < rest.len() implies rest[a] != rest[b] by {
            assert(rest[a] == path[a] && rest[b] == path[b]);
        }
        assert forall|a: int| 0 <= a < rest.len() implies #[trigger] rest[a] < nodes.len() by {
            assert(rest[a] == path[a]);
        }
        assert forall|a: int| 0 <= a < rest.len() implies nodes[#[trigger] rest[a] as int].visit_count + vl <= u32::MAX by {
            assert(rest[a] == path[a]);
        }
        lemma_add_along(nodes, rest, vl);
        let last = path.last();
        assert(!rest.contains(last)) by {
            if rest.contains(last) {
                let a = choose|a: int| 0 <= a < rest.len() && rest[a] == last;
                assert(path[a] == path[path.len() - 1]);
            }
        }
        assert forall|j: int| 0 <= j < nodes.len() implies (#[trigger] path.contains(j as usize) <==> (rest.contains(j as usize) || j as usize == last)) by {
            if path.contains(j as usize) {
                let a = choose|a: int| 0 <= a < path.len() && path[a] == j as usize;
                if a < rest.len() {
                    assert(rest[a] == j as usize);
                }
            }
            if rest.contains(j as usize) {
                let a = choose|a: int| 0 <= a < rest.len() && rest[a] == j as usize;
                assert(path[a] == j as usize);
            }
            if j as usize == last {
                assert(path[path.len() - 1] == last);
            }
        }
        assert(path[path.len() - 1] == last);
        let w = add_along(nodes, rest, vl);
        assert(add_along(nodes, path, vl) == w.update(last as int, with_visits(w[last as int], w[last as int].visit_count + vl)));
        assert(w[last as int] == nodes[last as int]);
        assert forall|j: int| 0 <= j < nodes.len() implies #[trigger] add_along(nodes, path, vl)[j] == if path.contains(j as usize) {
                with_visits(nodes[j], nodes[j].visit_count + vl)
            } else {
                nodes[j]
            } by {
            if j != last as int {
                assert(add_along(nodes, path, vl)[j] == w[j]);
            }
        }
    }
}

/// Taking a virtual loss back along a path of distinct nodes, each holding
/// at least that many visits, takes it once from each of them.
pub proof fn lemma_sub_along<S>(nodes: Seq<Node<S>>, path: Seq<usize>, vl: u32)
    requires
        nodes.len() <= usize::MAX,
        path.no_duplicates(),
        forall|a: int| 0 <= a < path.len() ==> #[trigger] path[a] < nodes.len(),
        forall|a: int| 0 <= a < path.len() ==> nodes[#[trigger] path[a] as int].visit_count >= vl,
    ensures
        can_sub_along(nodes, path, vl),
        sub_along(nodes, path, vl).len() == nodes.len(),
        forall|j: int|
            0 <= j < nodes.len() ==> #[trigger] sub_along(nodes, path, vl)[j] == if path.contains(j as usize) {
                with_visits(nodes[j], nodes[j].visit_count - vl)
            } else {
                nodes[j]
            },
    decreases path.len(),
{
    if path.len() > 0 {
        let rest = path.drop_last();
        assert forall|a: int, b: int| 0 <= a < b < rest.len() implies rest[a] != rest[b] by {
            assert(rest[a] == path[a] && rest[b] == path[b]);
        }
        assert forall|a: int| 0 <= a < rest.len() implies #[trigger] rest[a] < nodes.len() by {
            assert(rest[a] == path[a]);
        }
        assert forall|a: int| 0 <= a < rest.len() implies nodes[#[trigger] rest[a] as int].visit_count >= vl by {
            assert(rest[a] == path[a]);
        }
        lemma_sub_along(nodes, rest, vl);
        let last = path.last();
        assert(!rest.contains(last)) by {
            if rest.contains(last) {
                let a = choose|a: int| 0 <= a < rest.len() && rest[a] == last;
                assert(path[a] == path[path.len() - 1]);
            }
        }
        assert forall|j: int| 0 <= j < nodes.len() implies (#[trigger] path.contains(j as usize) <==> (rest.contains(j as usize) || j as usize == last)) by {
            if path.contains(j as usize) {
                let a = choose|a: int| 0 <= a < path.len() && path[a] == j as usize;
                if a < rest.len() {
                    assert(rest[a] == j as usize);
                }
            }
            if rest.contains(j as usize) {
                let a = choose|a: int| 0 <= a < rest.len() && rest[a] == j as usize;
                assert(path[a] == j as usize);
            }
            if j as usize == last {
                assert(path[path.len() - 1] == last);
            }
        }
        assert(path[path.len() - 1] == last);
        assert(nodes[last as int].visit_count >= vl);
        let w = sub_along(nodes, rest, vl);
        assert(sub_along(nodes, path, vl) == w.update(last as int, with_visits(w[last as int], w[last as int].visit_count - vl)));
        assert(w[last as int] == nodes[last as int]);
        assert forall|j: int| 0 <= j < nodes.len() implies #[trigger] sub_along(nodes, path, vl)[j] == if path.contains(j as usize) {
                with_visits(nodes[j], nodes[j].visit_count - vl)
            } else {
                nodes[j]
            } by {
            if j != last as int {
                assert(sub_along(nodes, path, vl)[j] == w[j]);
            }
        }
    }
}

/// A path that can give its virtual loss back can do so for each prefix.
pub proof fn lemma_can_sub_prefix<S>(nodes: Seq<Node<S>>, path: Seq<usize>, vl: u32, n: int)
    requires
        can_sub_along(nodes, path, vl),
        0 <= n <= path.len(),
    ensures
        can_sub_along(nodes, path.take(n), vl),
    decreases path.len() - n,
{
    if n < path.len() {
        lemma_can_sub_prefix(nodes, path, vl, n + 1);
        assert(path.take(n + 1).drop_last() == path.take(n));
    } else {
        assert(path.take(n) == path);
    }
}

/// Law: taking the virtual loss back along the path that it was added on
/// gives back the tree as it was, for a path of distinct nodes whose counts
/// do not overflow.
pub proof fn law_virtual_loss_undone<S>(nodes: Seq<Node<S>>, path: Seq<usize>, vl: u32)
    requires
        nodes.len() <= usize::MAX,
        path.no_duplicates(),
        forall|a: int| 0 <= a < path.len() ==> #[trigger] path[a] < nodes.len(),
        forall|a: int| 0 <= a < path.len() ==> nodes[#[trigger] path[a] as int].visit_count + vl <= u32::MAX,
    ensures
        can_sub_along(add_along(nodes, path, vl), path, vl),
        sub_along(add_along(nodes, path, vl), path, vl) == nodes,
{
    lemma_add_along(nodes, path, vl);
    let added = add_along(nodes, path, vl);
    assert forall|a: int| 0 <= a < path.len() implies added[#[trigger] path[a] as int].visit_count >= vl by {
        assert(path.contains(path[a]));
        assert(added[path[a] as int] == with_visits(nodes[path[a] as int], nodes[path[a] as int].visit_count + vl));
    }
    lemma_sub_along(added, path, vl);
    let back = sub_along(added, path, vl);
    assert forall|j: int| 0 <= j < nodes.len() implies #[trigger] back[j] == nodes[j] by {
        assert(back[j] == added[j] || path.contains(j as usize));
    }
    assert(back =~= nodes);
}

impl<S> MctsTree<S> {
    /// The nodes of the tree, root first.
    pub closed spec fn view_nodes(&self) -> Seq<Node<S>> {
        self.nodes@
    }

    /// The deepest level reached.
    pub closed spec fn depth(&self) -> u8 {
        self.profondeur
    }

    pub open spec fn wf(&self) -> bool {
        nodes_wf(self.view_nodes())
    }

    /// A tree holding only its root, at depth 0.
    pub fn new(root_node: Node<S>) -> (t: Self)
        requires
            root_node.parent is None,
            root_node.children@.len() == 0,
        ensures
            t.wf(),
            t.view_nodes() == seq![root_node],
            t.depth() == 0,
    {
        let mut nodes: Vec<Node<S>> = Vec::new();
        nodes.push(root_node);
        Self { nodes, profondeur: 0 }
    }

    /// Number of nodes.
    pub fn len(&self) -> (n: usize)
        ensures
            n == self.view_nodes().len(),
    {
        self.nodes.len()
    }

    /// The node at an index.
    pub fn node(&self, i: usize) -> (n: &Node<S>)
        requires
            i < self.view_nodes().len(),
        ensures
            *n == self.view_nodes()[i as int],
    {
        &self.nodes[i]
    }

    /// The deepest level reached.
    pub fn profondeur(&self) -> (d: u8)
        ensures
            d == self.depth(),
    {
        self.profondeur
    }

    /// Records the depth of a node reached: the tree's depth becomes `d`
    /// where that is deeper.
    pub fn note_depth(&mut self, d: u8)
        ensures
            final(self).view_nodes() == old(self).view_nodes(),
            final(self).depth() == if d > old(self).depth() {
                d
            } else {
                old(self).depth()
            },
    {
        if d > self.profondeur {
            self.profondeur = d;
        }
    }

    /// Sets the depth.
    pub fn set_profondeur(&mut self, d: u8)
        ensures
            final(self).view_nodes() == old(self).view_nodes(),
            final(self).depth() == d,
    {
        self.profondeur = d;
    }

    /// Replaces what the caller keeps for a node.
    pub fn set_stats(&mut self, i: usize, stats: S)
        requires
            i < old(self).view_nodes().len(),
        ensures
            final(self).depth() == old(self).depth(),
            final(self).view_nodes().len() == old(self).view_nodes().len(),
            forall|j: int|
                #![trigger final(self).view_nodes()[j]]
                0 <= j < old(self).view_nodes().len() && j != i ==> final(self).view_nodes()[j] == old(self).view_nodes()[j],
            final(self).view_nodes()[i as int].stats == stats,
            final(self).view_nodes()[i as int].parent == old(self).view_nodes()[i as int].parent,
            final(self).view_nodes()[i as int].children == old(self).view_nodes()[i as int].children,
            final(self).view_nodes()[i as int].visit_count == old(self).view_nodes()[i as int].visit_count,
            final(self).view_nodes()[i as int].is_expanded == old(self).view_nodes()[i as int].is_expanded,
            final(self).view_nodes()[i as int].is_pending == old(self).view_nodes()[i as int].is_pending,
            old(self).wf() ==> final(self).wf(),
    {
        self.nodes[i].stats = stats;
    }

    /// Marks a node as waiting for its evaluation.
    pub fn set_pending(&mut self, i: usize)
        requires
            i < old(self).view_nodes().len(),
        ensures
            final(self).depth() == old(self).depth(),
            final(self).view_nodes() == old(self).view_nodes().update(
                i as int,
                Node { is_pending: true, ..old(self).view_nodes()[i as int] },
            ),
            old(self).wf() ==> final(self).wf(),
    {
        self.nodes[i].is_pending = true;
    }

    /// Counts one more visit on every node from `leaf` up to the root, and
    /// returns those nodes, `leaf` first. The caller adds the leaf's value to
    /// the first of them, its opposite to the second, and so on, each level
    /// seeing the game from the other side.
    pub fn backpropagate(&mut self, leaf_idx: usize) -> (path: Vec<usize>)
        requires
            old(self).wf(),
            leaf_idx < old(self).view_nodes().len(),
            forall|a: int|
                0 <= a < path_to_root(old(self).view_nodes(), leaf_idx as int).len()
                    ==> old(self).view_nodes()[#[trigger] path_to_root(
                    old(self).view_nodes(),
                    leaf_idx as int,
                )[a]].visit_count < u32::MAX,
        ensures
            final(self).wf(),
            final(self).depth() == old(self).depth(),
            path@.map_values(|j: usize| j as int) == path_to_root(
                old(self).view_nodes(),
                leaf_idx as int,
            ),
            final(self).view_nodes().len() == old(self).view_nodes().len(),
            forall|j: int|
                #![trigger final(self).view_nodes()[j]]
                0 <= j < old(self).view_nodes().len() ==> {
                    let a = old(self).view_nodes()[j];
                    let b = final(self).view_nodes()[j];
                    &&& same_but_visits(a, b)
                    &&& b.visit_count == a.visit_count + if path_to_root(
                        old(self).view_nodes(),
                        leaf_idx as int,
                    ).contains(j) {
                        1int
                    } else {
                        0int
                    }
                },
    {
        let ghost old_nodes = self.nodes@;
        let ghost full = path_to_root(old_nodes, leaf_idx as int);
        proof {
            lemma_path_shape(old_nodes, leaf_idx as int);
        }
        let mut path: Vec<usize> = Vec::new();
        let mut current_idx: Option<usize> = Some(leaf_idx);
        while current_idx.is_some()
            invariant
                nodes_wf(old_nodes),
                self.nodes@.len() == old_nodes.len(),
                self.profondeur == old(self).profondeur,
                old_nodes == old(self).nodes@,
                full == path_to_root(old_nodes, leaf_idx as int),
                forall|a: int|
                    0 <= a < full.len() ==> old_nodes[#[trigger] full[a]].visit_count < u32::MAX,
                forall|a: int|
                    0 <= a < full.len() ==> 0 <= #[trigger] full[a] <= leaf_idx,
                forall|a: int, b: int| 0 <= a < b < full.len() ==> full[a] > full[b],
                path@.len() <= full.len(),
                forall|a: int| 0 <= a < path@.len() ==> path@[a] as int == #[trigger] full[a],
                match current_idx {
                    Some(c) => c < old_nodes.len() && path@.len() < full.len() && full[path@.len() as int] == c
                        && path_to_root(old_nodes, c as int) == full.subrange(path@.len() as int, full.len() as int),
                    None => path@.len() == full.len(),
                },
                forall|j: int|
                    #![trigger self.nodes@[j]]
                    0 <= j < old_nodes.len() ==> {
                        let a = old_nodes[j];
                        let b = self.nodes@[j];
                        &&& same_but_visits(a, b)
                        &&& b.visit_count == a.visit_count + if full.subrange(0, path@.len() as int).contains(j) {
                            1int
                        } else {
                            0int
                        }
                    },
            decreases
                match current_idx {
                    Some(c) => c as int + 1,
                    None => 0,
                },
        {
            let idx = current_idx.unwrap();
            let ghost k = path@.len() as int;
            proof {
                lemma_path_shape(old_nodes, idx as int);
                assert(!full.subrange(0, k).contains(idx as int)) by {
                    if full.subrange(0, k).contains(idx as int) {
                        let a = choose|a: int| 0 <= a < k && #[trigger] full.subrange(0, k)[a] == idx as int;
                        assert(full[a] == idx as int);
                    }
                }
                assert(full.subrange(0, k + 1) == full.subrange(0, k).push(idx as int));
            }
            let vc = self.nodes[idx].visit_count;
            self.nodes[idx].visit_count = vc + 1;
            path.push(idx);
            let parent = self.nodes[idx].parent;
            proof {
                assert forall|j: int| 0 <= j < old_nodes.len() implies
                    (full.subrange(0, k + 1).contains(j) <==> (full.subrange(0, k).contains(j) || j == idx as int)) by {
                    if full.subrange(0, k + 1).contains(j) {
                        let a = choose|a: int| 0 <= a < k + 1 && #[trigger] full.subrange(0, k + 1)[a] == j;
                        if a < k {
                            assert(full.subrange(0, k)[a] == j);
                        }
                    }
                    if full.subrange(0, k).contains(j) {
                        let a = choose|a: int| 0 <= a < k && #[trigger] full.subrange(0, k)[a] == j;
                        assert(full.subrange(0, k + 1)[a] == j);
                    }
                    if j == idx as int {
                        assert(full.subrange(0, k + 1)[k] == j);
                    }
                }
                let rest = path_to_root(old_nodes, idx as int);
                match parent {
                    Some(pp) => {
                        assert(rest == seq![idx as int].add(path_to_root(old_nodes, pp as int)));
                        assert(rest.subrange(1, rest.len() as int) =~= path_to_root(old_nodes, pp as int));
                        assert(full.subrange(k, full.len() as int).subrange(1, full.len() - k) =~= full.subrange(k + 1, full.len() as int));
                        assert(path_to_root(old_nodes, pp as int) == full.subrange(k + 1, full.len() as int));
                        lemma_path_shape(old_nodes, pp as int);
                    },
                    None => {
                        assert(rest == seq![idx as int]);
                    },
                }
            }
            current_idx = parent;
        }
        proof {
            assert(path@.map_values(|j: usize| j as int) == full);
            assert(full.subrange(0, full.len() as int) == full);
        }
        path
    }

    /// Expands a node: appends one child per given move (its network index
    /// and what the caller keeps for it), in the given order, links each to
    /// the node with the move of `board` it stands for, and marks the node
    /// expanded and no longer pending. A node already expanded is left as
    /// it is. Where an index has no move, or its move is not legal in
    /// `board`, nothing changes and the error names the first such index.
    pub fn expand_node(&mut self, parent_idx: usize, coups_legaux: &Vec<(usize, S)>, board: &Position) -> (r: Result<(), ExpandError>)
        where S: Copy
        requires
            old(self).wf(),
            parent_idx < old(self).view_nodes().len(),
        ensures
            final(self).wf(),
            final(self).depth() == old(self).depth(),
            r is Err || old(self).view_nodes()[parent_idx as int].is_expanded ==> final(self).view_nodes() == old(self).view_nodes(),
            !old(self).view_nodes()[parent_idx as int].is_expanded ==> (r is Ok <==> expandable(board@, coups_legaux@)),
            r matches Err(e) ==> exists|k: int| 0 <= k < coups_legaux@.len() && first_refused(board@, coups_legaux@, k)
                && e == refusal(coups_legaux@[k].0),
            old(self).view_nodes()[parent_idx as int].is_expanded ==> r is Ok,
            r is Ok && !old(self).view_nodes()[parent_idx as int].is_expanded ==> {
                let o = old(self).view_nodes();
                let n = final(self).view_nodes();
                let p = parent_idx as int;
                &&& n.len() == o.len() + coups_legaux@.len()
                &&& forall|j: int| 0 <= j < o.len() && j != p ==> #[trigger] n[j] == o[j]
                &&& n[p].parent == o[p].parent
                &&& n[p].visit_count == o[p].visit_count
                &&& n[p].stats == o[p].stats
                &&& n[p].is_expanded
                &&& !n[p].is_pending
                &&& n[p].children@.len() == o[p].children@.len() + coups_legaux@.len()
                &&& forall|k: int| 0 <= k < o[p].children@.len() ==> #[trigger] n[p].children@[k] == o[p].children@[k]
                &&& forall|k: int|
                    #![trigger n[o.len() + k]]
                    0 <= k < coups_legaux@.len() ==> {
                        &&& Some(n[p].children@[o[p].children@.len() + k].0) == move_in(coups_legaux@[k].0 as int, board@)
                        &&& n[p].children@[o[p].children@.len() + k].1 == o.len() + k
                        &&& n[o.len() + k].parent == Some(parent_idx)
                        &&& n[o.len() + k].children@.len() == 0
                        &&& n[o.len() + k].visit_count == 0
                        &&& n[o.len() + k].stats == coups_legaux@[k].1
                        &&& !n[o.len() + k].is_expanded
                        &&& !n[o.len() + k].is_pending
                    }
            },
    {
        if self.nodes[parent_idx].is_expanded {
            return Ok(());
        }
        let mut moves: Vec<UciMove> = Vec::new();
        let mut k: usize = 0;
        while k < coups_legaux.len()
            invariant
                k <= coups_legaux.len(),
                moves.len() == k,
                forall|q: int| 0 <= q < k ==> move_legal_at(board@, #[trigger] coups_legaux@[q].0 as int),
                forall|q: int| 0 <= q < k ==> Some(#[trigger] moves@[q]) == move_in(coups_legaux@[q].0 as int, board@),
                self.nodes@ == old(self).nodes@,
                self.profondeur == old(self).profondeur,
                nodes_wf(self.nodes@),
                parent_idx < self.nodes@.len(),
                !self.nodes@[parent_idx as int].is_expanded,
            decreases coups_legaux.len() - k,
        {
            let mv = coups_legaux[k].0;
            let uci_m = match ia_to_real(mv, board) {
                Ok(m) => m,
                Err(_) => {
                    proof {
                        lemma_decode_shape(mv as int, origin_pawn_in(mv as int, board@));
                        assert(first_refused(board@, coups_legaux@, k as int));
                    }
                    return Err(ExpandError::InvalidIndex(mv));
                },
            };
            let text = uci_m.to_uci_string();
            if board.play(text.as_str()).is_none() {
                proof {
                    assert(first_refused(board@, coups_legaux@, k as int));
                }
                return Err(ExpandError::IllegalMove(mv));
            }
            moves.push(uci_m);
            k = k + 1;
        }
        let ghost o = self.nodes@;
        let ghost oc = self.nodes@[parent_idx as int].children@.len();
        let mut k: usize = 0;
        while k < coups_legaux.len()
            invariant
                k <= coups_legaux.len(),
                moves.len() == coups_legaux.len(),
                forall|q: int| 0 <= q < moves.len() ==> Some(#[trigger] moves@[q]) == move_in(coups_legaux@[q].0 as int, board@),
                parent_idx < o.len(),
                !o[parent_idx as int].is_expanded,
                nodes_wf(o),
                self.profondeur == old(self).profondeur,
                self.nodes@.len() == o.len() + k,
                forall|j: int| 0 <= j < o.len() && j != parent_idx ==> #[trigger] self.nodes@[j] == o[j],
                self.nodes@[parent_idx as int].parent == o[parent_idx as int].parent,
                self.nodes@[parent_idx as int].visit_count == o[parent_idx as int].visit_count,
                self.nodes@[parent_idx as int].stats == o[parent_idx as int].stats,
                self.nodes@[parent_idx as int].is_expanded == o[parent_idx as int].is_expanded,
                self.nodes@[parent_idx as int].is_pending == o[parent_idx as int].is_pending,
                self.nodes@[parent_idx as int].children@.len() == oc + k,
                oc == o[parent_idx as int].children@.len(),
                forall|q: int| 0 <= q < oc ==> #[trigger] self.nodes@[parent_idx as int].children@[q] == o[parent_idx as int].children@[q],
                forall|q: int|
                    #![trigger self.nodes@[o.len() + q]]
                    0 <= q < k ==> {
                        &&& self.nodes@[parent_idx as int].children@[oc + q].0 == moves@[q]
                        &&& self.nodes@[parent_idx as int].children@[oc + q].1 == o.len() + q
                        &&& self.nodes@[o.len() + q].parent == Some(parent_idx)
                        &&& self.nodes@[o.len() + q].children@.len() == 0
                        &&& self.nodes@[o.len() + q].visit_count == 0
                        &&& self.nodes@[o.len() + q].stats == coups_legaux@[q].1
                        &&& !self.nodes@[o.len() + q].is_expanded
                        &&& !self.nodes@[o.len() + q].is_pending
                    },
            decreases coups_legaux.len() - k,
        {
            let child_idx = self.nodes.len();
            let new_child = Node::new(Some(parent_idx), coups_legaux[k].1);
            self.nodes.push(new_child);
            self.nodes[parent_idx].children.push((moves[k], child_idx));
            k = k + 1;
        }
        self.nodes[parent_idx].is_expanded = true;
        self.nodes[parent_idx].is_pending = false;
        proof {
            let n = self.nodes@;
            let p = parent_idx as int;
            assert forall|i: int| 0 < i < n.len() implies (#[trigger] n[i].parent matches Some(pp) && pp < i) by {
                if i >= o.len() {
                    let q = i - o.len();
                    assert(n[o.len() + q].parent == Some(parent_idx));
                } else if i != p {
                    assert(n[i] == o[i]);
                }
            }
            assert forall|i: int, q: int| 0 <= i < n.len() && 0 <= q < n[i].children@.len() implies ({
                let c = #[trigger] n[i].children@[q].1 as int;
                &&& i < c < n.len()
                &&& n[c].parent == Some(i as usize)
            }) by {
                if i >= o.len() {
                    let r = i - o.len();
                    assert(n[o.len() + r].children@.len() == 0);
                } else if i != p {
                    assert(n[i] == o[i]);
                    let c = o[i].children@[q].1 as int;
                    if c != p {
                        assert(n[c] == o[c]);
                    }
                } else if q < oc {
                    assert(n[p].children@[q] == o[p].children@[q]);
                    let c = o[p].children@[q].1 as int;
                    assert(c != p);
                    assert(n[c] == o[c]);
                } else {
                    let r = q - oc;
                    assert(n[p].children@[oc + r].1 == o.len() + r);
                    assert(n[o.len() + r].parent == Some(parent_idx));
                }
            }
        }
        Ok(())
    }

    /// Adds a virtual loss `vl` to the visit count of a node on the way
    /// down, so that the next descents of the same batch prefer other paths.
    pub fn add_virtual_loss(&mut self, i: usize, vl: u32)
        requires
            i < old(self).view_nodes().len(),
            old(self).view_nodes()[i as int].visit_count + vl <= u32::MAX,
        ensures
            final(self).view_nodes() == add_along(old(self).view_nodes(), seq![i], vl),
            final(self).depth() == old(self).depth(),
            old(self).wf() ==> final(self).wf(),
    {
        let ghost o = self.nodes@;
        let vc = self.nodes[i].visit_count;
        self.nodes[i].visit_count = vc + vl;
        proof {
            assert(seq![i].drop_last() =~= Seq::<usize>::empty());
            assert(add_along(o, Seq::<usize>::empty(), vl) == o);
            assert(seq![i].last() == i);
            assert(seq![i].len() == 1);
            assert(add_along(o, seq![i], vl) == o.update(i as int, with_visits(o[i as int], o[i as int].visit_count + vl)));
            assert(self.nodes@ =~= o.update(i as int, with_visits(o[i as int], o[i as int].visit_count + vl)));
        }
    }

    /// Takes a virtual loss `vl` back from each node of `path` in turn.
    pub fn remove_virtual_loss(&mut self, path: &Vec<usize>, vl: u32)
        requires
            can_sub_along(old(self).view_nodes(), path@, vl),
        ensures
            final(self).view_nodes() == sub_along(old(self).view_nodes(), path@, vl),
            final(self).depth() == old(self).depth(),
            old(self).wf() ==> final(self).wf(),
    {
        let ghost o = self.nodes@;
        let mut k: usize = 0;
        while k < path.len()
            invariant
                k <= path.len(),
                can_sub_along(o, path@, vl),
                self.nodes@ == sub_along(o, path@.take(k as int), vl),
                self.nodes@.len() == o.len(),
                self.profondeur == old(self).profondeur,
                o == old(self).nodes@,
                nodes_wf(o) ==> nodes_wf(self.nodes@),
            decreases path.len() - k,
        {
            proof {
                lemma_can_sub_prefix(o, path@, vl, k as int + 1);
                assert(path@.take(k as int + 1).drop_last() == path@.take(k as int));
                assert(path@.take(k as int + 1).last() == path@[k as int]);
            }
            let j = path[k];
            let ghost before = self.nodes@;
            let vc = self.nodes[j].visit_count;
            self.nodes[j].visit_count = vc - vl;
            proof {
                assert(self.nodes@ =~= before.update(j as int, with_visits(before[j as int], before[j as int].visit_count - vl)));
            }
            k = k + 1;
        }
        proof {
            assert(path@.take(path@.len() as int) == path@);
        }
    }

    /// The move to play from the root: the one of the root's children with
    /// the most visits, the last of them where several tie; `None` when the
    /// root has no children.
    pub fn choisir_meilleur_coup(&self) -> (m: Option<UciMove>)
        requires
            self.wf(),
        ensures
            m is None <==> self.view_nodes()[0].children@.len() == 0,
            m matches Some(mv) ==> {
                let v = root_child_visits(self.view_nodes());
                let p = last_max_pos(v);
                &&& 0 <= p < v.len()
                &&& mv == self.view_nodes()[0].children@[p].0
                &&& forall|k: int| 0 <= k < v.len() ==> #[trigger] v[k] <= v[p]
                &&& forall|k: int| p < k < v.len() ==> #[trigger] v[k] < v[p]
            },
    {
        let ghost v = root_child_visits(self.nodes@);
        let root = &self.nodes[0];
        let mut nb: u32 = 0;
        let mut best: Option<usize> = None;
        let mut k: usize = 0;
        while k < root.children.len()
            invariant
                nodes_wf(self.nodes@),
                *root == self.nodes@[0],
                v == root_child_visits(self.nodes@),
                k <= v.len(),
                best is None <==> k == 0,
                best is None ==> nb == 0,
                best matches Some(p) ==> p as int == last_max_pos(v.take(k as int)) && nb == v[p as int],
            decreases root.children.len() - k,
        {
            let c = root.children[k].1;
            assert(root.children@[k as int].1 < self.nodes@.len());
            assert(v.take(k as int + 1).drop_last() == v.take(k as int));
            assert(v.take(k as int + 1).last() == v[k as int]);
            if self.nodes[c].visit_count >= nb {
                nb = self.nodes[c].visit_count;
                best = Some(k);
            }
            proof {
                if k > 0 {
                    let w = v.take(k as int);
                    lemma_last_max_pos(w);
                    assert(w[last_max_pos(w)] == v[last_max_pos(w)]);
                }
            }
            k = k + 1;
        }
        proof {
            assert(v.take(v.len() as int) == v);
            lemma_last_max_pos(v);
        }
        match best {
            Some(p) => {
                let (mv, _) = root.children[p];
                Some(mv)
            },
            None => None,
        }
    }

    /// Visits of the root's child at a position of its child links.
    fn root_child_visit(&self, k: usize) -> (n: u32)
        requires
            self.wf(),
            k < self.view_nodes()[0].children@.len(),
        ensures
            n == root_child_visits(self.view_nodes())[k as int],
    {
        let c = self.nodes[0].children[k].1;
        self.nodes[c].visit_count
    }

    /// The positions of the root's children, most visited first; children
    /// with as many visits keep the order of their links.
    pub fn classement_racine(&self) -> (r: Vec<usize>)
        requires
            self.wf(),
        ensures
            is_ranking(root_child_visits(self.view_nodes()), r@),
            r@ == ranking_of(root_child_visits(self.view_nodes())),
    {
        let ghost v = root_child_visits(self.nodes@);
        let n = self.nodes[0].children.len();
        let mut r: Vec<usize> = Vec::new();
        let mut k: usize = 0;
        while k < n
            invariant
                self.wf(),
                v == root_child_visits(self.view_nodes()),
                n == v.len(),
                k <= n,
                is_ranking(v.take(k as int), r@),
            decreases n - k,
        {
            let vk = self.root_child_visit(k);
            let mut q: usize = 0;
            while q < r.len() && self.root_child_visit(r[q]) >= vk
                invariant
                    self.wf(),
                    v == root_child_visits(self.view_nodes()),
                    n == v.len(),
                    k < n,
                    vk == v[k as int],
                    is_ranking(v.take(k as int), r@),
                    q <= r.len(),
                    forall|a: int| 0 <= a < q ==> v[#[trigger] r@[a] as int] >= vk,
                decreases r.len() - q,
            {
                assert(r@[q as int] < k);
                q = q + 1;
            }
            proof {
                if q < r.len() {
                    assert(r@[q as int] < k);
                }
                lemma_insert_ranking(v, r@, k as int, q as int);
            }
            r.insert(q, k);
            k = k + 1;
        }
        proof {
            assert(v.take(n as int) == v);
            law_ranking_unique(v, r@, ranking_of(v));
        }
        r
    }

    /// The ranking of the root's children, cut for a report of the `x` best,
    /// and the moves of the five best.
    pub fn choisir_x_meilleurs_coups(&self, x: usize) -> (t: TopMoves)
        requires
            self.wf(),
        ensures
            ({
                let v = root_child_visits(self.view_nodes());
                let rk = ranking_of(v);
                let nr = if x < v.len() { x as int } else { v.len() as int };
                let nb = if 5 < v.len() { 5int } else { v.len() as int };
                &&& t.report@ == rk.take(nr)
                &&& t.best@.len() == nb
                &&& forall|a: int| 0 <= a < nb ==> #[trigger] t.best@[a] == self.view_nodes()[0].children@[rk[a] as int].0
            }),
    {
        let ranking = self.classement_racine();
        let ghost rk = ranking@;
        let n = ranking.len();
        let mut report: Vec<usize> = Vec::new();
        let mut a: usize = 0;
        while a < x && a < n
            invariant
                n == rk.len(),
                ranking@ == rk,
                a <= n,
                a <= x,
                report@ == rk.take(a as int),
            decreases n - a,
        {
            report.push(ranking[a]);
            a = a + 1;
        }
        let mut best: Vec<UciMove> = Vec::new();
        let mut b: usize = 0;
        while b < 5 && b < n
            invariant
                self.wf(),
                is_ranking(root_child_visits(self.view_nodes()), rk),
                n == rk.len(),
                ranking@ == rk,
                b <= n,
                b <= 5,
                best@.len() == b,
                forall|q: int| 0 <= q < b ==> #[trigger] best@[q] == self.view_nodes()[0].children@[rk[q] as int].0,
            decreases n - b,
        {
            let (mv, _) = self.nodes[0].children[ranking[b]];
            best.push(mv);
            b = b + 1;
        }
        proof {
            let v = root_child_visits(self.view_nodes());
            assert(v.len() == n);
            assert(a == if x < v.len() { x as int } else { v.len() as int });
            assert(is_ranking(root_child_visits(self.view_nodes()), rk));
        }
        TopMoves { report, best }
    }

    /// The drawing plan of the tree: the nodes with at least `min_visits`
    /// visits, in index order, each with its children that also have at
    /// least `min_visits` visits, in link order.
    pub fn dot_plan(&self, min_visits: u32) -> (plan: Vec<DotNode>)
        requires
            self.wf(),
        ensures
            plan@.len() == visible_nodes(self.view_nodes(), min_visits, self.view_nodes().len() as int).len(),
            forall|a: int|
                0 <= a < plan@.len() ==> {
                    let i = visible_nodes(self.view_nodes(), min_visits, self.view_nodes().len() as int)[a];
                    &&& (#[trigger] plan@[a]).index == i
                    &&& plan@[a].edges@ == visible_children(self.view_nodes(), self.view_nodes()[i].children@, min_visits)
                },
    {
        let ghost nodes = self.nodes@;
        let mut plan: Vec<DotNode> = Vec::new();
        let mut i: usize = 0;
        while i < self.nodes.len()
            invariant
                self.wf(),
                nodes == self.view_nodes(),
                i <= nodes.len(),
                plan@.len() == visible_nodes(nodes, min_visits, i as int).len(),
                forall|a: int|
                    0 <= a < plan@.len() ==> {
                        let j = visible_nodes(nodes, min_visits, i as int)[a];
                        &&& (#[trigger] plan@[a]).index == j
                        &&& plan@[a].edges@ == visible_children(nodes, nodes[j].children@, min_visits)
                    },
            decreases nodes.len() - i,
        {
            if self.nodes[i].visit_count >= min_visits {
                let edges = self.visible_edges(i, min_visits);
                plan.push(DotNode { index: i, edges });
            }
            i = i + 1;
        }
        plan
    }

    /// The child links of node `i` whose child has at least `min_visits`
    /// visits.
    fn visible_edges(&self, i: usize, min_visits: u32) -> (e: Vec<(UciMove, usize)>)
        requires
            self.wf(),
            i < self.view_nodes().len(),
        ensures
            e@ == visible_children(self.view_nodes(), self.view_nodes()[i as int].children@, min_visits),
    {
        let ghost links = self.nodes@[i as int].children@;
        let mut e: Vec<(UciMove, usize)> = Vec::new();
        let mut k: usize = 0;
        while k < self.nodes[i].children.len()
            invariant
                self.wf(),
                i < self.view_nodes().len(),
                links == self.view_nodes()[i as int].children@,
                k <= links.len(),
                e@ == visible_children(self.view_nodes(), links.take(k as int), min_visits),
            decreases links.len() - k,
        {
            let (mv, c) = self.nodes[i].children[k];
            assert(links.take(k as int + 1).drop_last() == links.take(k as int));
            assert(links.take(k as int + 1).last() == links[k as int]);
            assert(c < self.view_nodes().len());
            if self.nodes[c].visit_count >= min_visits {
                e.push((mv, c));
            }
            k = k + 1;
        }
        proof {
            assert(links.take(links.len() as int) == links);
        }
        e
    }
}

} // verus!
