use vstd::prelude::*;
use crate::data_types::Node;
use crate::player::Player;
use crate::wad_reader::WadError;

verus! {

/// A child reference with this bit set names a subsector.
pub const SUB_SECTOR_IDENTIFIER: u16 = 0x8000;

/// The cross product that places a point against a node's partition line.
pub open spec fn side_value(pos: (i16, i16), n: Node) -> int {
    (pos.0 - n.x_partition) * n.dy_partition - (pos.1 - n.y_partition) * n.dx_partition
}

/// A point is on the back side when the cross product is not positive.
pub open spec fn on_back(pos: (i16, i16), n: Node) -> bool {
    side_value(pos, n) <= 0
}

/// The node with its partition direction reversed.
pub open spec fn reversed(n: Node) -> Node {
    Node { dx_partition: (-n.dx_partition) as i16, dy_partition: (-n.dy_partition) as i16, ..n }
}

/// Reversing a partition's direction negates the cross product, so every point
/// off the line changes side.
pub proof fn lemma_side_antisymmetric(pos: (i16, i16), n: Node)
    requires
        n.dx_partition != i16::MIN,
        n.dy_partition != i16::MIN,
    ensures
        side_value(pos, reversed(n)) == -side_value(pos, n),
        side_value(pos, n) != 0 ==> on_back(pos, reversed(n)) != on_back(pos, n),
{
    let a = pos.0 - n.x_partition;
    let b = pos.1 - n.y_partition;
    let dx = n.dx_partition as int;
    let dy = n.dy_partition as int;
    assert(a * (-dy) - b * (-dx) == -(a * dy - b * dx)) by (nonlinear_arith);
}

/// The step budget of a traversal over `n` nodes: a tree of `n` nodes has
/// `n + 1` leaves, so `2n + 1` visits suffice.
pub open spec fn step_budget(n: int) -> int {
    if n <= (usize::MAX - 1) / 2 {
        2 * n + 1
    } else {
        usize::MAX as int
    }
}

/// The subsectors met when walking from child reference `id` with `fuel` visits
/// to spend, with the visits left; `None` once the visits run out. Each visit
/// costs one; a node index past the collection is skipped. With `near_first`
/// the child on the viewpoint's side is walked first.
pub open spec fn walk(
    pos: (i16, i16),
    nodes: Seq<Node>,
    id: u16,
    near_first: bool,
    fuel: nat,
) -> Option<(nat, Seq<u16>)>
    decreases fuel,
{
    if fuel == 0 {
        None
    } else if id >= SUB_SECTOR_IDENTIFIER {
        Some(((fuel - 1) as nat, seq![(id - SUB_SECTOR_IDENTIFIER) as u16]))
    } else if id >= nodes.len() {
        Some(((fuel - 1) as nat, Seq::empty()))
    } else {
        let n = nodes[id as int];
        let first = if on_back(pos, n) == near_first {
            n.back_child_id
        } else {
            n.front_child_id
        };
        let second = if on_back(pos, n) == near_first {
            n.front_child_id
        } else {
            n.back_child_id
        };
        match walk(pos, nodes, first, near_first, (fuel - 1) as nat) {
            None => None,
            Some((left, out1)) => {
                let rest: nat = if left < fuel {
                    left
                } else {
                    (fuel - 1) as nat
                };
                match walk(pos, nodes, second, near_first, rest) {
                    None => None,
                    Some((left2, out2)) => Some((left2, out1 + out2)),
                }
            },
        }
    }
}

/// A walk never emits more subsectors than the visits it spent.
pub proof fn lemma_walk_bounded(
    pos: (i16, i16),
    nodes: Seq<Node>,
    id: u16,
    near_first: bool,
    fuel: nat,
)
    ensures
        walk(pos, nodes, id, near_first, fuel) matches Some((left, out)) ==> left < fuel
            && out.len() <= fuel - left,
    decreases fuel,
{
    if fuel > 0 && id < SUB_SECTOR_IDENTIFIER && id < nodes.len() {
        let n = nodes[id as int];
        let first = if on_back(pos, n) == near_first {
            n.back_child_id
        } else {
            n.front_child_id
        };
        let second = if on_back(pos, n) == near_first {
            n.front_child_id
        } else {
            n.back_child_id
        };
        lemma_walk_bounded(pos, nodes, first, near_first, (fuel - 1) as nat);
        if let Some((left, _)) = walk(pos, nodes, first, near_first, (fuel - 1) as nat) {
            let rest: nat = if left < fuel {
                left
            } else {
                (fuel - 1) as nat
            };
            lemma_walk_bounded(pos, nodes, second, near_first, rest);
        }
    }
}

/// A child reference of node `i` names a subsector, a node past the
/// collection, or a node before `i`.
pub open spec fn child_below(c: u16, i: int, n: int) -> bool {
    c >= SUB_SECTOR_IDENTIFIER || c >= n || c < i
}

/// Every node's children come before it, as a node builder lays them out with
/// the root last; such a collection holds no cycle.
pub open spec fn children_first(nodes: Seq<Node>) -> bool {
    forall|i: int|
        0 <= i < nodes.len() ==> child_below((#[trigger] nodes[i]).front_child_id, i, nodes.len() as int)
            && child_below(nodes[i].back_child_id, i, nodes.len() as int)
}

/// How many visits a walk from `id` makes in a children-first collection: one
/// per leaf or skipped reference, and one per node plus those of its children.
pub open spec fn visits(nodes: Seq<Node>, id: u16) -> nat
    decreases id,
{
    if id >= SUB_SECTOR_IDENTIFIER || id >= nodes.len() {
        1
    } else {
        let n = nodes[id as int];
        let f: nat = if n.front_child_id < id {
            visits(nodes, n.front_child_id)
        } else {
            1
        };
        let b: nat = if n.back_child_id < id {
            visits(nodes, n.back_child_id)
        } else {
            1
        };
        1 + f + b
    }
}

/// In a children-first collection a walk given at least `visits` steps
/// finishes, in either order, and spends exactly that many.
pub proof fn lemma_walk_completes(
    pos: (i16, i16),
    nodes: Seq<Node>,
    id: u16,
    near_first: bool,
    fuel: nat,
)
    requires
        children_first(nodes),
        fuel >= visits(nodes, id),
    ensures
        walk(pos, nodes, id, near_first, fuel) matches Some((left, _)) && left == fuel - visits(
            nodes,
            id,
        ),
    decreases id,
{
    if id < SUB_SECTOR_IDENTIFIER && id < nodes.len() {
        let n = nodes[id as int];
        assert(child_below(n.front_child_id, id as int, nodes.len() as int));
        assert(child_below(n.back_child_id, id as int, nodes.len() as int));
        let first = if on_back(pos, n) == near_first {
            n.back_child_id
        } else {
            n.front_child_id
        };
        let second = if on_back(pos, n) == near_first {
            n.front_child_id
        } else {
            n.back_child_id
        };
        let f1 = (fuel - 1) as nat;
        if first < id {
            lemma_walk_completes(pos, nodes, first, near_first, f1);
        }
        assert(walk(pos, nodes, first, near_first, f1) matches Some((l, _)) && l == f1 - visits(
            nodes,
            first,
        ));
        let left = (f1 - visits(nodes, first)) as nat;
        if second < id {
            lemma_walk_completes(pos, nodes, second, near_first, left);
        }
        assert(walk(pos, nodes, second, near_first, left) matches Some((l, _)) && l == left
            - visits(nodes, second));
    }
}

/// `c` names a node of a collection of `n`.
pub open spec fn node_ref(c: u16, n: int) -> bool {
    c < SUB_SECTOR_IDENTIFIER && c < n
}

/// Node `q` has node `j` as a child.
pub open spec fn parent_of(nodes: Seq<Node>, q: int, j: int) -> bool {
    &&& 0 <= q < nodes.len()
    &&& {
        ||| node_ref(nodes[q].front_child_id, nodes.len() as int) && nodes[q].front_child_id == j
        ||| node_ref(nodes[q].back_child_id, nodes.len() as int) && nodes[q].back_child_id == j
    }
}

/// Each node has at most one parent, and no node names one node as both of
/// its children: together with `children_first`, the collection is a forest.
pub open spec fn single_parent(nodes: Seq<Node>) -> bool {
    &&& forall|q1: int, q2: int, j: int|
        #[trigger] parent_of(nodes, q1, j) && #[trigger] parent_of(nodes, q2, j) ==> q1 == q2
    &&& forall|q: int|
        0 <= q < nodes.len() && node_ref((#[trigger] nodes[q]).front_child_id, nodes.len() as int)
            && node_ref(nodes[q].back_child_id, nodes.len() as int) ==> nodes[q].front_child_id
            != nodes[q].back_child_id
}

/// The nodes below `id`, itself included, in a children-first collection.
pub open spec fn subtree(nodes: Seq<Node>, id: u16) -> Set<int>
    decreases id,
{
    if !node_ref(id, nodes.len() as int) {
        Set::empty()
    } else {
        let n = nodes[id as int];
        let f = if n.front_child_id < id {
            subtree(nodes, n.front_child_id)
        } else {
            Set::empty()
        };
        let b = if n.back_child_id < id {
            subtree(nodes, n.back_child_id)
        } else {
            Set::empty()
        };
        f.union(b).insert(id as int)
    }
}

proof fn lemma_subtree_bounds(nodes: Seq<Node>, id: u16)
    requires
        children_first(nodes),
    ensures
        subtree(nodes, id).finite(),
        forall|j: int| #[trigger] subtree(nodes, id).contains(j) ==> 0 <= j <= id && j < nodes.len(),
    decreases id,
{
    if node_ref(id, nodes.len() as int) {
        let n = nodes[id as int];
        if n.front_child_id < id {
            lemma_subtree_bounds(nodes, n.front_child_id);
        }
        if n.back_child_id < id {
            lemma_subtree_bounds(nodes, n.back_child_id);
        }
    }
}

/// A node of the subtree other than its top has its parent in the subtree.
proof fn lemma_parent_inside(nodes: Seq<Node>, a: u16, j: int)
    requires
        children_first(nodes),
        subtree(nodes, a).contains(j),
        j != a,
    ensures
        exists|q: int| subtree(nodes, a).contains(q) && parent_of(nodes, q, j),
    decreases a,
{
    let n = nodes[a as int];
    assert(child_below(n.front_child_id, a as int, nodes.len() as int));
    assert(child_below(n.back_child_id, a as int, nodes.len() as int));
    if n.front_child_id < a && subtree(nodes, n.front_child_id).contains(j) {
        let c = n.front_child_id;
        if j == c {
            assert(parent_of(nodes, a as int, j));
            assert(subtree(nodes, a).contains(a as int));
        } else {
            lemma_parent_inside(nodes, c, j);
            let q = choose|q: int| subtree(nodes, c).contains(q) && parent_of(nodes, q, j);
            assert(subtree(nodes, a).contains(q));
        }
    } else {
        let c = n.back_child_id;
        if j == c {
            assert(parent_of(nodes, a as int, j));
            assert(subtree(nodes, a).contains(a as int));
        } else {
            lemma_parent_inside(nodes, c, j);
            let q = choose|q: int| subtree(nodes, c).contains(q) && parent_of(nodes, q, j);
            assert(subtree(nodes, a).contains(q));
        }
    }
}

/// In a forest the two subtrees below a node share no node.
proof fn lemma_children_disjoint(nodes: Seq<Node>, p: int, j: int)
    requires
        children_first(nodes),
        single_parent(nodes),
        0 <= p < nodes.len(),
        node_ref(nodes[p].front_child_id, nodes.len() as int),
        node_ref(nodes[p].back_child_id, nodes.len() as int),
    ensures
        !(subtree(nodes, nodes[p].front_child_id).contains(j) && subtree(
            nodes,
            nodes[p].back_child_id,
        ).contains(j)),
    decreases p - j,
{
    let a = nodes[p].front_child_id;
    let b = nodes[p].back_child_id;
    if subtree(nodes, a).contains(j) && subtree(nodes, b).contains(j) {
        assert(child_below(a, p, nodes.len() as int));
        assert(child_below(b, p, nodes.len() as int));
        assert(a != b);
        lemma_subtree_bounds(nodes, a);
        lemma_subtree_bounds(nodes, b);
        assert(parent_of(nodes, p, a as int));
        assert(parent_of(nodes, p, b as int));
        if j == a {
            lemma_parent_inside(nodes, b, j);
            let q = choose|q: int| subtree(nodes, b).contains(q) && parent_of(nodes, q, j);
            assert(q == p);
        } else if j == b {
            lemma_parent_inside(nodes, a, j);
            let q = choose|q: int| subtree(nodes, a).contains(q) && parent_of(nodes, q, j);
            assert(q == p);
        } else {
            lemma_parent_inside(nodes, a, j);
            lemma_parent_inside(nodes, b, j);
            let q1 = choose|q: int| subtree(nodes, a).contains(q) && parent_of(nodes, q, j);
            let q2 = choose|q: int| subtree(nodes, b).contains(q) && parent_of(nodes, q, j);
            assert(q1 == q2);
            let m = nodes[q1];
            assert(child_below(m.front_child_id, q1, nodes.len() as int));
            assert(child_below(m.back_child_id, q1, nodes.len() as int));
            assert(j < q1);
            lemma_children_disjoint(nodes, p, q1);
        }
    }
}

/// In a forest a walk from `id` visits each node below it once and each
/// other reference once.
proof fn lemma_visits_count(nodes: Seq<Node>, id: u16)
    requires
        children_first(nodes),
        single_parent(nodes),
    ensures
        visits(nodes, id) == 2 * subtree(nodes, id).len() + 1,
    decreases id,
{
    lemma_subtree_bounds(nodes, id);
    if node_ref(id, nodes.len() as int) {
        let n = nodes[id as int];
        assert(child_below(n.front_child_id, id as int, nodes.len() as int));
        assert(child_below(n.back_child_id, id as int, nodes.len() as int));
        let f = if n.front_child_id < id {
            subtree(nodes, n.front_child_id)
        } else {
            Set::empty()
        };
        let b = if n.back_child_id < id {
            subtree(nodes, n.back_child_id)
        } else {
            Set::empty()
        };
        if n.front_child_id < id {
            lemma_visits_count(nodes, n.front_child_id);
            lemma_subtree_bounds(nodes, n.front_child_id);
        }
        if n.back_child_id < id {
            lemma_visits_count(nodes, n.back_child_id);
            lemma_subtree_bounds(nodes, n.back_child_id);
        }
        assert forall|j: int| f.contains(j) implies !b.contains(j) by {
            if n.front_child_id < id && n.back_child_id < id {
                lemma_children_disjoint(nodes, id as int, j);
            }
        }
        assert(f.disjoint(b));
        vstd::set_lib::lemma_set_disjoint_lens(f, b);
        assert(!f.union(b).contains(id as int));
    }
}

/// In a forest of `n` nodes a walk from any reference takes at most `2n + 1`
/// visits, so the traversal's budget always suffices and it never reports a
/// broken tree.
pub proof fn lemma_forest_walk_within_budget(
    pos: (i16, i16),
    nodes: Seq<Node>,
    id: u16,
    near_first: bool,
)
    requires
        children_first(nodes),
        single_parent(nodes),
        nodes.len() <= (usize::MAX - 1) / 2,
    ensures
        visits(nodes, id) <= 2 * nodes.len() + 1,
        walk(pos, nodes, id, near_first, step_budget(nodes.len() as int) as nat) is Some,
{
    lemma_visits_count(nodes, id);
    lemma_subtree_bounds(nodes, id);
    vstd::set_lib::lemma_int_range(0, nodes.len() as int);
    assert(subtree(nodes, id).subset_of(vstd::set_lib::set_int_range(0, nodes.len() as int)));
    vstd::set_lib::lemma_len_subset(
        subtree(nodes, id),
        vstd::set_lib::set_int_range(0, nodes.len() as int),
    );
    lemma_walk_completes(pos, nodes, id, near_first, step_budget(nodes.len() as int) as nat);
}

/// Node `q` names subsector `x` as one of its children.
pub open spec fn leaf_slot(nodes: Seq<Node>, q: int, x: u16) -> bool {
    &&& 0 <= q < nodes.len()
    &&& {
        ||| nodes[q].front_child_id >= SUB_SECTOR_IDENTIFIER && (nodes[q].front_child_id
            - SUB_SECTOR_IDENTIFIER) as u16 == x
        ||| nodes[q].back_child_id >= SUB_SECTOR_IDENTIFIER && (nodes[q].back_child_id
            - SUB_SECTOR_IDENTIFIER) as u16 == x
    }
}

/// Each subsector is named by at most one child reference of the collection.
pub open spec fn single_leaf_parent(nodes: Seq<Node>) -> bool {
    &&& forall|q1: int, q2: int, x: u16|
        #[trigger] leaf_slot(nodes, q1, x) && #[trigger] leaf_slot(nodes, q2, x) ==> q1 == q2
    &&& forall|q: int|
        0 <= q < nodes.len() && (#[trigger] nodes[q]).front_child_id >= SUB_SECTOR_IDENTIFIER
            && nodes[q].back_child_id >= SUB_SECTOR_IDENTIFIER ==> nodes[q].front_child_id
            != nodes[q].back_child_id
}

/// Subsector `x` is reachable from reference `id`: it is `id` itself, or a
/// child of a node below `id`.
pub open spec fn leaf_below(nodes: Seq<Node>, id: u16, x: u16) -> bool {
    ||| id >= SUB_SECTOR_IDENTIFIER && x == (id - SUB_SECTOR_IDENTIFIER) as u16
    ||| node_ref(id, nodes.len() as int) && exists|q: int|
        subtree(nodes, id).contains(q) && #[trigger] leaf_slot(nodes, q, x)
}

/// In a forest whose subsectors each have one parent, a walk emits each
/// subsector at most once, and only those below its start.
pub proof fn lemma_walk_leaves_once(
    pos: (i16, i16),
    nodes: Seq<Node>,
    id: u16,
    near_first: bool,
    fuel: nat,
)
    requires
        children_first(nodes),
        single_parent(nodes),
        single_leaf_parent(nodes),
    ensures
        walk(pos, nodes, id, near_first, fuel) matches Some((_, out)) ==> {
            &&& out.no_duplicates()
            &&& forall|k: int| 0 <= k < out.len() ==> leaf_below(nodes, id, #[trigger] out[k])
        },
    decreases fuel,
{
    if fuel > 0 && node_ref(id, nodes.len() as int) {
        let n = nodes[id as int];
        assert(child_below(n.front_child_id, id as int, nodes.len() as int));
        assert(child_below(n.back_child_id, id as int, nodes.len() as int));
        let first = if on_back(pos, n) == near_first {
            n.back_child_id
        } else {
            n.front_child_id
        };
        let second = if on_back(pos, n) == near_first {
            n.front_child_id
        } else {
            n.back_child_id
        };
        lemma_walk_leaves_once(pos, nodes, first, near_first, (fuel - 1) as nat);
        if let Some((left, out1)) = walk(pos, nodes, first, near_first, (fuel - 1) as nat) {
            let rest: nat = if left < fuel {
                left
            } else {
                (fuel - 1) as nat
            };
            lemma_walk_leaves_once(pos, nodes, second, near_first, rest);
            if let Some((_, out2)) = walk(pos, nodes, second, near_first, rest) {
                let out = out1 + out2;
                lemma_subtree_bounds(nodes, id);
                lemma_subtree_bounds(nodes, first);
                lemma_subtree_bounds(nodes, second);
                assert(subtree(nodes, id).contains(id as int));
                // Every emitted subsector sits below `id`.
                assert forall|c: u16, x: u16|
                    (c == first || c == second) && leaf_below(nodes, c, x) implies leaf_below(
                    nodes,
                    id,
                    x,
                ) by {
                    if c >= SUB_SECTOR_IDENTIFIER {
                        assert(leaf_slot(nodes, id as int, x));
                    } else {
                        let q = choose|q: int|
                            subtree(nodes, c).contains(q) && leaf_slot(nodes, q, x);
                        assert(subtree(nodes, id).contains(q));
                    }
                }
                assert forall|k: int| 0 <= k < out.len() implies leaf_below(
                    nodes,
                    id,
                    #[trigger] out[k],
                ) by {
                    if k < out1.len() {
                        assert(out[k] == out1[k]);
                        assert(leaf_below(nodes, first, out1[k]));
                    } else {
                        assert(out[k] == out2[k - out1.len()]);
                        assert(leaf_below(nodes, second, out2[k - out1.len()]));
                    }
                }
                // No subsector comes from both sides.
                assert forall|i: int, j: int|
                    0 <= i < out1.len() && 0 <= j < out2.len() implies out1[i] != out2[j] by {
                    let x = out1[i];
                    if x == out2[j] {
                        assert(leaf_below(nodes, first, x));
                        assert(leaf_below(nodes, second, x));
                        lemma_sides_share_no_leaf(nodes, id as int, first, second, x);
                    }
                }
                assert forall|i: int, j: int|
                    0 <= i < out.len() && 0 <= j < out.len() && i != j implies out[i]
                    != out[j] by {
                    if i < out1.len() && j < out1.len() {
                        assert(out1[i] != out1[j]);
                    } else if i >= out1.len() && j >= out1.len() {
                        assert(out2[i - out1.len()] != out2[j - out1.len()]);
                    } else if i < out1.len() {
                        assert(out1[i] != out2[j - out1.len()]);
                    } else {
                        assert(out1[j] != out2[i - out1.len()]);
                    }
                }
            }
        }
    }
}

/// The two children of node `p` reach no common subsector.
proof fn lemma_sides_share_no_leaf(nodes: Seq<Node>, p: int, a: u16, b: u16, x: u16)
    requires
        children_first(nodes),
        single_parent(nodes),
        single_leaf_parent(nodes),
        0 <= p < nodes.len(),
        (a == nodes[p].front_child_id && b == nodes[p].back_child_id) || (a
            == nodes[p].back_child_id && b == nodes[p].front_child_id),
    ensures
        !(leaf_below(nodes, a, x) && leaf_below(nodes, b, x)),
{
    let n = nodes[p];
    assert(child_below(n.front_child_id, p, nodes.len() as int));
    assert(child_below(n.back_child_id, p, nodes.len() as int));
    lemma_subtree_bounds(nodes, a);
    lemma_subtree_bounds(nodes, b);
    if leaf_below(nodes, a, x) && leaf_below(nodes, b, x) {
        if a >= SUB_SECTOR_IDENTIFIER && b >= SUB_SECTOR_IDENTIFIER {
            assert(n.front_child_id != n.back_child_id);
        } else if a >= SUB_SECTOR_IDENTIFIER {
            assert(leaf_slot(nodes, p, x));
            let q = choose|q: int| subtree(nodes, b).contains(q) && leaf_slot(nodes, q, x);
            assert(q == p);
        } else if b >= SUB_SECTOR_IDENTIFIER {
            assert(leaf_slot(nodes, p, x));
            let q = choose|q: int| subtree(nodes, a).contains(q) && leaf_slot(nodes, q, x);
            assert(q == p);
        } else {
            let q1 = choose|q: int| subtree(nodes, a).contains(q) && leaf_slot(nodes, q, x);
            let q2 = choose|q: int| subtree(nodes, b).contains(q) && leaf_slot(nodes, q, x);
            assert(q1 == q2);
            lemma_children_disjoint(nodes, p, q1);
        }
    }
}

/// The BSP tree of a map, by the index of its root node.
pub struct BSP {
    pub root_node_id: usize,
}

impl BSP {
    /// Whether the viewpoint lies on the back side of the node's partition line.
    pub fn is_on_back_side(p: &Player, n: &Node) -> (r: bool)
        ensures
            r == on_back(p.pos, *n),
    {
        let dx: i64 = p.pos.0 as i64 - n.x_partition as i64;
        let dy: i64 = p.pos.1 as i64 - n.y_partition as i64;
        let ndx: i64 = n.dx_partition as i64;
        let ndy: i64 = n.dy_partition as i64;
        assert(-65536 <= dx <= 65536 && -32768 <= ndy <= 32768 ==> -2147483648 <= dx * ndy
            <= 2147483648) by (nonlinear_arith);
        assert(-65536 <= dy <= 65536 && -32768 <= ndx <= 32768 ==> -2147483648 <= dy * ndx
            <= 2147483648) by (nonlinear_arith);
        dx * ndy - dy * ndx <= 0
    }

    /// Emits a subsector reached by the traversal.
    pub fn render_sub_sector(sub_sector_id: u16, out: &mut Vec<u16>)
        ensures
            final(out)@ == old(out)@.push(sub_sector_id),
    {
        out.push(sub_sector_id);
    }

    fn walk_from(
        player: &Player,
        nodes: &Vec<Node>,
        id: u16,
        near_first: bool,
        fuel: usize,
        out: &mut Vec<u16>,
    ) -> (r: Option<usize>)
        ensures
            match walk(player.pos, nodes@, id, near_first, fuel as nat) {
                None => r is None,
                Some((left, s)) => r == Some(left as usize) && final(out)@ == old(out)@ + s,
            },
            r matches Some(left) ==> left < fuel,
            walk(player.pos, nodes@, id, near_first, fuel as nat) matches Some((left, _)) ==> left
                < fuel,
        decreases fuel,
    {
        proof {
            lemma_walk_bounded(player.pos, nodes@, id, near_first, fuel as nat);
        }
        if fuel == 0 {
            return None;
        }
        if id >= SUB_SECTOR_IDENTIFIER {
            BSP::render_sub_sector(id - SUB_SECTOR_IDENTIFIER, out);
            return Some(fuel - 1);
        }
        if id as usize >= nodes.len() {
            assert(old(out)@ + Seq::<u16>::empty() =~= old(out)@);
            return Some(fuel - 1);
        }
        let node = &nodes[id as usize];
        let back = BSP::is_on_back_side(player, node);
        let (first, second) = if back == near_first {
            (node.back_child_id, node.front_child_id)
        } else {
            (node.front_child_id, node.back_child_id)
        };
        let ghost start = out@;
        let ghost w1 = walk(player.pos, nodes@, first, near_first, (fuel - 1) as nat);
        let left = match BSP::walk_from(player, nodes, first, near_first, fuel - 1, out) {
            Some(l) => l,
            None => return None,
        };
        let ghost w2 = walk(player.pos, nodes@, second, near_first, left as nat);
        let left2 = match BSP::walk_from(player, nodes, second, near_first, left, out) {
            Some(l) => l,
            None => return None,
        };
        proof {
            let s1 = w1.unwrap().1;
            let s2 = w2.unwrap().1;
            assert(out@ =~= start + (s1 + s2));
        }
        Some(left2)
    }

    /// The subsectors below child reference `node_id`, in the order the policy
    /// asks: with `near_first` the side holding the viewpoint comes first, else
    /// the far side does. Fails with `BrokenTree` when the walk needs more than
    /// `2 * nodes.len() + 1` visits.
    pub fn traverse(player: &Player, nodes: &Vec<Node>, node_id: u16, near_first: bool) -> (r:
        Result<Vec<u16>, WadError>)
        ensures
            match walk(player.pos, nodes@, node_id, near_first, step_budget(nodes@.len() as int) as nat) {
                None => r == Err::<Vec<u16>, WadError>(WadError::BrokenTree),
                Some((_, s)) => r matches Ok(v) && v@ == s,
            },
    {
        let budget: usize = if nodes.len() <= (usize::MAX - 1) / 2 {
            2 * nodes.len() + 1
        } else {
            usize::MAX
        };
        let mut out: Vec<u16> = Vec::new();
        match BSP::walk_from(player, nodes, node_id, near_first, budget, &mut out) {
            Some(_) => {
                assert(out@ =~= Seq::<u16>::empty() + out@);
                Ok(out)
            },
            None => Err(WadError::BrokenTree),
        }
    }

    /// The subsectors below `node_id`, nearest side first.
    pub fn render_bsp_node(player: &Player, nodes: &Vec<Node>, node_id: u16) -> (r: Result<
        Vec<u16>,
        WadError,
    >)
        ensures
            match walk(player.pos, nodes@, node_id, true, step_budget(nodes@.len() as int) as nat) {
                None => r == Err::<Vec<u16>, WadError>(WadError::BrokenTree),
                Some((_, s)) => r matches Ok(v) && v@ == s,
            },
    {
        BSP::traverse(player, nodes, node_id, true)
    }
}

} // verus!
