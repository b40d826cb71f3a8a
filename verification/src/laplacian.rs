//! Graph Laplacian of the chip topology: a grid with nearest-neighbour
//! edges plus a few long-range edges, stored as adjacency lists and turned
//! into the sparse matrix L = D - A.

use vstd::prelude::*;
use crate::fixed::{Fixed, FIXED_ONE, saturate_i32, sat_add_i32};
use crate::sparse::{
    MatrixIndex, MAX_DIMENSION, NUM_LONG_RANGE_EDGES, SparseElement, SparseMatrix, SparseView, empty_view,
    get_spec, set_spec, try_set,
};

verus! {

/// Most neighbours one node's list holds.
pub const MAX_NEIGHBORS: usize = 8;

/// Weight of a diagonal grid edge (1/sqrt(2) in fixed point).
pub const DIAGONAL_WEIGHT: Fixed = 46341;

/// Weight of a long-range edge (0.5 in fixed point).
pub const LONG_RANGE_WEIGHT: Fixed = 32768;

/// Kind of an edge.
#[derive(Debug, Clone, Copy, PartialEq, Eq, Structural)]
pub enum EdgeType {
    /// Nearest neighbour (grid edge)
    NearestNeighbor,
    /// Long-range edge (Manhattan-routed)
    LongRange,
}

/// A directed edge with its weight.
#[derive(Debug, Clone, Copy, PartialEq, Eq, Structural)]
pub struct Edge {
    /// Source node
    pub from: MatrixIndex,
    /// Target node
    pub to: MatrixIndex,
    /// Edge type
    pub edge_type: EdgeType,
    /// Edge weight
    pub weight: Fixed,
}

impl Edge {
    /// An edge with the given endpoints, kind and weight.
    pub fn new(from: MatrixIndex, to: MatrixIndex, edge_type: EdgeType, weight: Fixed) -> (r: Self)
        ensures
            r == (Edge { from, to, edge_type, weight }),
    {
        Edge { from, to, edge_type, weight }
    }

    /// A nearest-neighbour edge of weight one.
    pub fn nearest_neighbor(from: MatrixIndex, to: MatrixIndex) -> (r: Self)
        ensures
            r == (Edge { from, to, edge_type: EdgeType::NearestNeighbor, weight: FIXED_ONE }),
    {
        Self::new(from, to, EdgeType::NearestNeighbor, FIXED_ONE)
    }

    /// A long-range edge.
    pub fn long_range(from: MatrixIndex, to: MatrixIndex, weight: Fixed) -> (r: Self)
        ensures
            r == (Edge { from, to, edge_type: EdgeType::LongRange, weight }),
    {
        Self::new(from, to, EdgeType::LongRange, weight)
    }

    /// The same edge in the other direction.
    pub fn transpose(&self) -> (r: Self)
        ensures
            r == (Edge { from: self.to, to: self.from, ..*self }),
    {
        Edge { from: self.to, to: self.from, edge_type: self.edge_type, weight: self.weight }
    }

    /// Whether the edge starts and ends at one node.
    pub fn is_self_loop(&self) -> (r: bool)
        ensures
            r == (self.from == self.to),
    {
        self.from == self.to
    }
}

/// Reversing an edge twice gives it back.
pub proof fn law_edge_transpose_involution(e: Edge)
    ensures
        (Edge { from: (Edge { from: e.to, to: e.from, ..e }).to, to: e.to, ..e }) == e,
{
}

/// The abstract state of an adjacency list.
pub ghost struct AdjView {
    /// Neighbour list of each node: (neighbour, weight), oldest first
    pub lists: Seq<Seq<(MatrixIndex, Fixed)>>,
    /// Number of edges added in full
    pub num_edges: nat,
    /// One past the highest node named by an edge (0 if none)
    pub actual_nodes: nat,
}

/// Total number of list entries.
pub open spec fn total_entries(lists: Seq<Seq<(MatrixIndex, Fixed)>>) -> nat
    decreases lists.len(),
{
    if lists.len() == 0 {
        0
    } else {
        total_entries(lists.drop_last()) + lists.last().len()
    }
}

/// The state of a fresh adjacency list.
pub open spec fn empty_adj() -> AdjView {
    AdjView {
        lists: Seq::new(MAX_DIMENSION as nat, |i: int| Seq::<(MatrixIndex, Fixed)>::empty()),
        num_edges: 0,
        actual_nodes: 0,
    }
}

/// The larger of two naturals.
pub open spec fn max_nat(a: nat, b: nat) -> nat {
    if a >= b {
        a
    } else {
        b
    }
}

/// Adding the undirected edge `u`-`v`: `v` goes onto `u`'s list and then `u`
/// onto `v`'s list; the edge counts once both are stored. Fails for a node
/// past the dimension (changing nothing) or a full list (keeping what was
/// done before it: the recorded node range and, for `v`'s list, the entry in
/// `u`'s list).
pub open spec fn add_edge_spec(a: AdjView, u: MatrixIndex, v: MatrixIndex, weight: Fixed) -> (AdjView, bool) {
    if u >= MAX_DIMENSION || v >= MAX_DIMENSION {
        (a, false)
    } else {
        let actual = max_nat(max_nat(a.actual_nodes, (u + 1) as nat), (v + 1) as nat);
        if a.lists[u as int].len() >= MAX_NEIGHBORS {
            (AdjView { actual_nodes: actual, ..a }, false)
        } else {
            let l1 = a.lists.update(u as int, a.lists[u as int].push((v, weight)));
            if l1[v as int].len() >= MAX_NEIGHBORS {
                (AdjView { lists: l1, actual_nodes: actual, ..a }, false)
            } else {
                (
                    AdjView {
                        lists: l1.update(v as int, l1[v as int].push((u, weight))),
                        num_edges: a.num_edges + 1,
                        actual_nodes: actual,
                    },
                    true,
                )
            }
        }
    }
}

/// The degree of a list: its weights added in order with saturation.
pub open spec fn degree_spec(s: Seq<(MatrixIndex, Fixed)>) -> Fixed
    decreases s.len(),
{
    if s.len() == 0 {
        0
    } else {
        saturate_i32(degree_spec(s.drop_last()) + s.last().1)
    }
}

/// Every neighbour named in the lists lies inside the recorded node range.
pub open spec fn neighbors_in_range(a: AdjView) -> bool {
    forall|i: int, j: int|
        0 <= i < a.lists.len() && 0 <= j < a.lists[i].len() ==> (#[trigger] a.lists[i][j]).0 < a.actual_nodes
}

/// A well-formed adjacency list: one list per node, each within its
/// capacity, the node range within the dimension and covering every named
/// neighbour, and every counted edge backed by two entries.
pub open spec fn adj_wf(a: AdjView) -> bool {
    &&& a.lists.len() == MAX_DIMENSION
    &&& forall|i: int| 0 <= i < a.lists.len() ==> (#[trigger] a.lists[i]).len() <= MAX_NEIGHBORS
    &&& a.actual_nodes <= MAX_DIMENSION
    &&& 2 * a.num_edges <= total_entries(a.lists)
    &&& neighbors_in_range(a)
}

proof fn lemma_total_update(lists: Seq<Seq<(MatrixIndex, Fixed)>>, i: int, x: Seq<(MatrixIndex, Fixed)>)
    requires
        0 <= i < lists.len(),
    ensures
        total_entries(lists.update(i, x)) == total_entries(lists) - lists[i].len() + x.len(),
    decreases lists.len(),
{
    if i < lists.len() - 1 {
        assert(lists.update(i, x).drop_last() == lists.drop_last().update(i, x));
        lemma_total_update(lists.drop_last(), i, x);
    } else {
        assert(lists.update(i, x).drop_last() == lists.drop_last());
    }
}

proof fn lemma_total_bound(lists: Seq<Seq<(MatrixIndex, Fixed)>>)
    requires
        forall|i: int| 0 <= i < lists.len() ==> (#[trigger] lists[i]).len() <= MAX_NEIGHBORS,
    ensures
        total_entries(lists) <= MAX_NEIGHBORS * lists.len(),
    decreases lists.len(),
{
    if lists.len() > 0 {
        let d = lists.drop_last();
        assert forall|i: int| 0 <= i < d.len() implies (#[trigger] d[i]).len() <= MAX_NEIGHBORS by {
            assert(d[i] == lists[i]);
        }
        lemma_total_bound(d);
        assert(lists.last() == lists[lists.len() - 1]);
    }
}

proof fn lemma_empty_total(k: nat)
    requires
        k <= MAX_DIMENSION,
    ensures
        total_entries(Seq::new(k, |i: int| Seq::<(MatrixIndex, Fixed)>::empty())) == 0,
    decreases k,
{
    if k > 0 {
        assert(Seq::new(k, |i: int| Seq::<(MatrixIndex, Fixed)>::empty()).drop_last() == Seq::new(
            (k - 1) as nat,
            |i: int| Seq::<(MatrixIndex, Fixed)>::empty(),
        ));
        lemma_empty_total((k - 1) as nat);
    }
}

/// Adding an edge keeps an adjacency list well formed.
pub proof fn lemma_add_edge_wf(a: AdjView, u: MatrixIndex, v: MatrixIndex, weight: Fixed)
    requires
        adj_wf(a),
    ensures
        adj_wf(add_edge_spec(a, u, v, weight).0),
{
    if u < MAX_DIMENSION && v < MAX_DIMENSION {
        let b = add_edge_spec(a, u, v, weight).0;
        assert(b.actual_nodes >= a.actual_nodes);
        assert(b.actual_nodes > u && b.actual_nodes > v);
        if a.lists[u as int].len() < MAX_NEIGHBORS {
            let l1 = a.lists.update(u as int, a.lists[u as int].push((v, weight)));
            lemma_total_update(a.lists, u as int, a.lists[u as int].push((v, weight)));
            if l1[v as int].len() < MAX_NEIGHBORS {
                lemma_total_update(l1, v as int, l1[v as int].push((u, weight)));
            }
        }
        assert forall|i: int, j: int| 0 <= i < b.lists.len() && 0 <= j < b.lists[i].len() implies (
        #[trigger] b.lists[i][j]).0 < b.actual_nodes by {
            if j < a.lists[i].len() {
                assert(b.lists[i][j] == a.lists[i][j]);
            }
        }
    }
}

/// Undirected adjacency lists, one per node of the chip.
pub struct AdjacencyList {
    neighbors: Vec<Vec<(MatrixIndex, Fixed)>>,
    num_edges: usize,
    actual_nodes: usize,
}

impl View for AdjacencyList {
    type V = AdjView;

    closed spec fn view(&self) -> AdjView {
        AdjView {
            lists: self.neighbors@.map_values(|l: Vec<(MatrixIndex, Fixed)>| l@),
            num_edges: self.num_edges as nat,
            actual_nodes: self.actual_nodes as nat,
        }
    }
}

impl AdjacencyList {
    /// The list is well formed.
    pub open spec fn wf(&self) -> bool {
        adj_wf(self@)
    }

    /// An empty list for every node.
    pub fn new() -> (r: Self)
        ensures
            r.wf(),
            r@ == empty_adj(),
    {
        let mut neighbors: Vec<Vec<(MatrixIndex, Fixed)>> = Vec::new();
        let mut i: usize = 0;
        while i < MAX_DIMENSION
            invariant
                i <= MAX_DIMENSION,
                neighbors@.len() == i,
                forall|k: int| 0 <= k < i ==> (#[trigger] neighbors@[k])@ == Seq::<(MatrixIndex, Fixed)>::empty(),
            decreases MAX_DIMENSION - i,
        {
            neighbors.push(Vec::new());
            i += 1;
        }
        let r = AdjacencyList { neighbors, num_edges: 0, actual_nodes: 0 };
        assert(r@.lists =~= empty_adj().lists);
        proof {
            lemma_empty_total(MAX_DIMENSION as nat);
        }
        r
    }

    /// Add the undirected edge `u`-`v` with a weight.
    pub fn add_edge(&mut self, u: MatrixIndex, v: MatrixIndex, weight: Fixed) -> (r: Result<(), ()>)
        requires
            old(self).wf(),
        ensures
            final(self).wf(),
            (final(self)@, r is Ok) == add_edge_spec(old(self)@, u, v, weight),
    {
        proof {
            lemma_add_edge_wf(self@, u, v, weight);
            lemma_total_bound(self@.lists);
        }
        let ghost a = self@;
        if u as usize >= MAX_DIMENSION || v as usize >= MAX_DIMENSION {
            return Err(());
        }
        let mut actual = self.actual_nodes;
        if (u as usize) + 1 > actual {
            actual = (u as usize) + 1;
        }
        if (v as usize) + 1 > actual {
            actual = (v as usize) + 1;
        }
        self.actual_nodes = actual;
        assert(self@.lists =~= a.lists);
        if self.neighbors[u as usize].len() >= MAX_NEIGHBORS {
            return Err(());
        }
        self.neighbors[u as usize].push((v, weight));
        assert(self@.lists =~= a.lists.update(u as int, a.lists[u as int].push((v, weight))));
        let ghost a1 = self@;
        if self.neighbors[v as usize].len() >= MAX_NEIGHBORS {
            return Err(());
        }
        self.neighbors[v as usize].push((u, weight));
        assert(self@.lists =~= a1.lists.update(v as int, a1.lists[v as int].push((u, weight))));
        proof {
            lemma_total_update(a.lists, u as int, a.lists[u as int].push((v, weight)));
            lemma_total_update(a1.lists, v as int, a1.lists[v as int].push((u, weight)));
        }
        self.num_edges += 1;
        Ok(())
    }

    /// The degree of a node (sum of its weights, saturating); 0 past the
    /// dimension.
    pub fn degree(&self, node: MatrixIndex) -> (r: Fixed)
        requires
            self.wf(),
        ensures
            node >= MAX_DIMENSION ==> r == 0,
            node < MAX_DIMENSION ==> r == degree_spec(self@.lists[node as int]),
    {
        if node as usize >= MAX_DIMENSION {
            return 0;
        }
        let list = &self.neighbors[node as usize];
        let ghost s = self@.lists[node as int];
        assert(list@ == s);
        let mut sum: Fixed = 0;
        let mut i: usize = 0;
        while i < list.len()
            invariant
                list@ == s,
                i <= s.len(),
                sum == degree_spec(s.take(i as int)),
            decreases s.len() - i,
        {
            assert(s.take(i + 1).drop_last() == s.take(i as int));
            let (_, w) = list[i];
            sum = sat_add_i32(sum, w);
            i += 1;
        }
        assert(s.take(s.len() as int) == s);
        sum
    }

    /// Number of neighbours of a node; 0 past the dimension.
    pub fn num_neighbors(&self, node: MatrixIndex) -> (r: usize)
        requires
            self.wf(),
        ensures
            node >= MAX_DIMENSION ==> r == 0,
            node < MAX_DIMENSION ==> r == self@.lists[node as int].len(),
    {
        if node as usize >= MAX_DIMENSION {
            return 0;
        }
        self.neighbors[node as usize].len()
    }

    /// The neighbours of a node with their weights, oldest first; none past
    /// the dimension.
    pub fn iter_neighbors(&self, node: MatrixIndex) -> (r: &[(MatrixIndex, Fixed)])
        requires
            self.wf(),
        ensures
            node >= MAX_DIMENSION ==> r@ == Seq::<(MatrixIndex, Fixed)>::empty(),
            node < MAX_DIMENSION ==> r@ == self@.lists[node as int],
    {
        if node as usize >= MAX_DIMENSION {
            return &[];
        }
        self.neighbors[node as usize].as_slice()
    }

    /// One past the highest node named by an edge.
    pub fn num_nodes(&self) -> (r: usize)
        ensures
            r == self@.actual_nodes,
    {
        self.actual_nodes
    }

    /// Number of edges added in full.
    pub fn num_edges(&self) -> (r: usize)
        ensures
            r == self@.num_edges,
    {
        self.num_edges
    }

    /// Remove every edge (the recorded node range stays).
    pub fn clear(&mut self)
        requires
            old(self).wf(),
        ensures
            final(self).wf(),
            final(self)@ == (AdjView { actual_nodes: old(self)@.actual_nodes, ..empty_adj() }),
    {
        let n = self.neighbors.len();
        let mut i: usize = 0;
        while i < n
            invariant
                n == self.neighbors@.len(),
                n == MAX_DIMENSION,
                i <= n,
                forall|k: int| 0 <= k < i ==> (#[trigger] self.neighbors@[k])@ == Seq::<(MatrixIndex, Fixed)>::empty(),
                self.actual_nodes == old(self).actual_nodes,
                self.actual_nodes <= MAX_DIMENSION,
            decreases n - i,
        {
            self.neighbors[i].clear();
            i += 1;
        }
        self.num_edges = 0;
        assert(self@.lists =~= empty_adj().lists);
        proof {
            lemma_empty_total(MAX_DIMENSION as nat);
        }
    }
}

impl Default for AdjacencyList {
    fn default() -> (r: Self)
        ensures
            r.wf(),
            r@ == empty_adj(),
    {
        Self::new()
    }
}

/// A successful edge insertion stores each endpoint as the newest
/// neighbour of the other.
pub proof fn law_add_edge_both_directions(a: AdjView, u: MatrixIndex, v: MatrixIndex, weight: Fixed)
    requires
        adj_wf(a),
        add_edge_spec(a, u, v, weight).1,
    ensures
        add_edge_spec(a, u, v, weight).0.lists[v as int].last() == (u, weight),
        u != v ==> add_edge_spec(a, u, v, weight).0.lists[u as int].last() == (v, weight),
        add_edge_spec(a, u, v, weight).0.num_edges == a.num_edges + 1,
{
}

/// A successful insertion between two distinct nodes raises each one's
/// degree by the weight, when no saturation occurs.
pub proof fn law_add_edge_degree(a: AdjView, u: MatrixIndex, v: MatrixIndex, weight: Fixed)
    requires
        adj_wf(a),
        u != v,
        add_edge_spec(a, u, v, weight).1,
        i32::MIN <= degree_spec(a.lists[u as int]) + weight <= i32::MAX,
        i32::MIN <= degree_spec(a.lists[v as int]) + weight <= i32::MAX,
    ensures
        degree_spec(add_edge_spec(a, u, v, weight).0.lists[u as int]) == degree_spec(a.lists[u as int])
            + weight,
        degree_spec(add_edge_spec(a, u, v, weight).0.lists[v as int]) == degree_spec(a.lists[v as int])
            + weight,
{
    let b = add_edge_spec(a, u, v, weight).0;
    assert(b.lists[u as int].drop_last() == a.lists[u as int]);
    assert(b.lists[v as int].drop_last() == a.lists[v as int]);
}

/// Lattice of `height` rows and `width` columns with optional diagonal
/// edges and a number of long-range edges.
#[derive(Debug, Clone, Copy, PartialEq, Eq, Structural)]
pub struct GridTopology {
    /// Grid width
    pub width: usize,
    /// Grid height
    pub height: usize,
    /// Include diagonal edges (8-connectivity)
    pub diagonal: bool,
    /// Number of long-range edges
    pub num_long_range: usize,
}

/// The node ID of a grid position (truncated to 16 bits).
pub open spec fn grid_id(t: GridTopology, row: int, col: int) -> MatrixIndex {
    (row * t.width + col) as MatrixIndex
}

/// The edges of one grid cell, added to `s`: right, bottom, and (with
/// diagonals) bottom-right.
pub open spec fn cell_step(t: GridTopology, row: int, col: int, s: AdjView) -> AdjView {
    let node = grid_id(t, row, col);
    let s1 = if col + 1 < t.width {
        add_edge_spec(s, node, grid_id(t, row, col + 1), FIXED_ONE).0
    } else {
        s
    };
    let s2 = if row + 1 < t.height {
        add_edge_spec(s1, node, grid_id(t, row + 1, col), FIXED_ONE).0
    } else {
        s1
    };
    if t.diagonal && row + 1 < t.height && col + 1 < t.width {
        add_edge_spec(s2, node, grid_id(t, row + 1, col + 1), DIAGONAL_WEIGHT).0
    } else {
        s2
    }
}

/// The cells `0..cols` of one row, added to `s` in order.
pub open spec fn row_step(t: GridTopology, row: int, cols: nat, s: AdjView) -> AdjView
    decreases cols,
{
    if cols == 0 {
        s
    } else {
        cell_step(t, row, cols - 1, row_step(t, row, (cols - 1) as nat, s))
    }
}

/// The grid edges of rows `0..rows`, starting from empty lists.
pub open spec fn rows_state(t: GridTopology, rows: nat) -> AdjView
    decreases rows,
{
    if rows == 0 {
        empty_adj()
    } else {
        row_step(t, rows - 1, t.width as nat, rows_state(t, (rows - 1) as nat))
    }
}

/// The pseudo-random seed of long-range edge `i`.
pub open spec fn lr_seed(i: int) -> int {
    i * 9301 + 49297
}

/// The endpoints of long-range edge `i`.
pub open spec fn lr_nodes(t: GridTopology, i: int) -> (MatrixIndex, MatrixIndex) {
    let cells = t.width * t.height;
    (
        (lr_seed(i) % cells) as MatrixIndex,
        ((lr_seed(i) * 48271) % cells) as MatrixIndex,
    )
}

/// Long-range edges `0..k` added to `s`; an edge whose endpoints coincide
/// is skipped.
pub open spec fn long_range_state(t: GridTopology, k: nat, s: AdjView) -> AdjView
    decreases k,
{
    if k == 0 {
        s
    } else {
        let prev = long_range_state(t, (k - 1) as nat, s);
        let (n1, n2) = lr_nodes(t, k - 1);
        if n1 != n2 {
            add_edge_spec(prev, n1, n2, LONG_RANGE_WEIGHT).0
        } else {
            prev
        }
    }
}

/// The adjacency lists of a topology: every grid cell row by row, then the
/// long-range edges.
pub open spec fn generate_spec(t: GridTopology) -> AdjView {
    long_range_state(t, t.num_long_range as nat, rows_state(t, t.height as nat))
}

/// The arithmetic of generating a topology stays within `usize`.
pub open spec fn grid_fits(t: GridTopology) -> bool {
    &&& t.width * t.height <= usize::MAX
    &&& t.num_long_range > 0 ==> t.width * t.height > 0
    &&& lr_seed(t.num_long_range as int) * 48271 <= usize::MAX
}

proof fn lemma_rows_wf(t: GridTopology, rows: nat)
    ensures
        adj_wf(rows_state(t, rows)),
    decreases rows,
{
    if rows == 0 {
        lemma_empty_total(MAX_DIMENSION as nat);
    } else {
        lemma_rows_wf(t, (rows - 1) as nat);
        lemma_row_step_wf(t, rows - 1, t.width as nat, rows_state(t, (rows - 1) as nat));
    }
}

proof fn lemma_cell_wf(t: GridTopology, row: int, col: int, s: AdjView)
    requires
        adj_wf(s),
    ensures
        adj_wf(cell_step(t, row, col, s)),
{
    let node = grid_id(t, row, col);
    lemma_add_edge_wf(s, node, grid_id(t, row, col + 1), FIXED_ONE);
    let s1 = if col + 1 < t.width {
        add_edge_spec(s, node, grid_id(t, row, col + 1), FIXED_ONE).0
    } else {
        s
    };
    lemma_add_edge_wf(s1, node, grid_id(t, row + 1, col), FIXED_ONE);
    let s2 = if row + 1 < t.height {
        add_edge_spec(s1, node, grid_id(t, row + 1, col), FIXED_ONE).0
    } else {
        s1
    };
    lemma_add_edge_wf(s2, node, grid_id(t, row + 1, col + 1), DIAGONAL_WEIGHT);
}

proof fn lemma_row_step_wf(t: GridTopology, row: int, cols: nat, s: AdjView)
    requires
        adj_wf(s),
    ensures
        adj_wf(row_step(t, row, cols, s)),
    decreases cols,
{
    if cols > 0 {
        lemma_row_step_wf(t, row, (cols - 1) as nat, s);
        lemma_cell_wf(t, row, cols - 1, row_step(t, row, (cols - 1) as nat, s));
    }
}

proof fn lemma_long_range_wf(t: GridTopology, k: nat, s: AdjView)
    requires
        adj_wf(s),
    ensures
        adj_wf(long_range_state(t, k, s)),
    decreases k,
{
    if k > 0 {
        lemma_long_range_wf(t, (k - 1) as nat, s);
        let (n1, n2) = lr_nodes(t, k - 1);
        lemma_add_edge_wf(long_range_state(t, (k - 1) as nat, s), n1, n2, LONG_RANGE_WEIGHT);
    }
}

impl GridTopology {
    /// The standard 100x100 grid: 4-connectivity and 100 long-range edges.
    pub fn standard_100x100() -> (r: Self)
        ensures
            r == (GridTopology { width: 100, height: 100, diagonal: false, num_long_range: NUM_LONG_RANGE_EDGES }),
    {
        GridTopology { width: 100, height: 100, diagonal: false, num_long_range: NUM_LONG_RANGE_EDGES }
    }

    /// The node ID of a grid position, truncated to 16 bits.
    pub fn coord_to_id(&self, row: usize, col: usize) -> (r: MatrixIndex)
        requires
            row * self.width + col <= usize::MAX,
        ensures
            r == grid_id(*self, row as int, col as int),
    {
        proof {
            vstd::arithmetic::mul::lemma_mul_nonnegative(row as int, self.width as int);
        }
        (row * self.width + col) as MatrixIndex
    }

    /// The grid position of a node ID.
    pub fn id_to_coord(&self, id: MatrixIndex) -> (r: (usize, usize))
        requires
            self.width > 0,
        ensures
            r == ((id as int / self.width as int) as usize, (id as int % self.width as int) as usize),
    {
        let id_usize = id as usize;
        (id_usize / self.width, id_usize % self.width)
    }

    /// Build the adjacency lists: for every cell in row order its right and
    /// bottom neighbours (weight one) and, with diagonals, its bottom-right
    /// neighbour; then the long-range edges. Refused insertions are skipped.
    pub fn generate_adjacency_list(&self) -> (r: AdjacencyList)
        requires
            grid_fits(*self),
        ensures
            r.wf(),
            r@ == generate_spec(*self),
    {
        let t = *self;
        let mut adj = AdjacencyList::new();
        let weight = FIXED_ONE;
        let cells = self.width * self.height;
        let mut row: usize = 0;
        while row < self.height
            invariant
                t == *self,
                grid_fits(t),
                cells == t.width * t.height,
                weight == FIXED_ONE,
                row <= t.height,
                adj.wf(),
                adj@ == rows_state(t, row as nat),
            decreases t.height - row,
        {
            let mut col: usize = 0;
            while col < self.width
                invariant
                    t == *self,
                    grid_fits(t),
                    cells == t.width * t.height,
                    weight == FIXED_ONE,
                    row < t.height,
                    col <= t.width,
                    adj.wf(),
                    adj@ == row_step(t, row as int, col as nat, rows_state(t, row as nat)),
                decreases t.width - col,
            {
                proof {
                    lemma_cell_index_fits(t, row as int, col as int);
                }
                let ghost before = adj@;
                let node = self.coord_to_id(row, col);
                if col + 1 < self.width {
                    let right = self.coord_to_id(row, col + 1);
                    let _ = adj.add_edge(node, right, weight);
                }
                if row + 1 < self.height {
                    let bottom = self.coord_to_id(row + 1, col);
                    let _ = adj.add_edge(node, bottom, weight);
                }
                if self.diagonal {
                    if row + 1 < self.height && col + 1 < self.width {
                        let diag = self.coord_to_id(row + 1, col + 1);
                        let diag_weight = (weight as i64 * 46341 / 65536) as Fixed;
                        assert(diag_weight == DIAGONAL_WEIGHT);
                        let _ = adj.add_edge(node, diag, diag_weight);
                    }
                }
                assert(adj@ == cell_step(t, row as int, col as int, before));
                col += 1;
            }
            row += 1;
        }
        let mut i: usize = 0;
        while i < self.num_long_range
            invariant
                t == *self,
                grid_fits(t),
                cells == t.width * t.height,
                weight == FIXED_ONE,
                i <= t.num_long_range,
                adj.wf(),
                adj@ == long_range_state(t, i as nat, rows_state(t, t.height as nat)),
            decreases t.num_long_range - i,
        {
            proof {
                lemma_seed_fits(t, i as int);
            }
            let seed = i * 9301 + 49297;
            let node1 = #[verifier::truncate] ((seed % cells) as MatrixIndex);
            let node2 = #[verifier::truncate] (((seed * 48271) % cells) as MatrixIndex);
            if node1 != node2 {
                let lr_weight = (weight as i64 * 32768 / 65536) as Fixed;
                assert(lr_weight == LONG_RANGE_WEIGHT);
                let _ = adj.add_edge(node1, node2, lr_weight);
            }
            i += 1;
        }
        adj
    }

    /// Number of grid nodes.
    pub fn num_nodes(&self) -> (r: usize)
        requires
            self.width * self.height <= usize::MAX,
        ensures
            r == self.width * self.height,
    {
        self.width * self.height
    }

    /// Width and height.
    pub fn dimensions(&self) -> (r: (usize, usize))
        ensures
            r == (self.width, self.height),
    {
        (self.width, self.height)
    }
}

impl Default for GridTopology {
    fn default() -> (r: Self)
        ensures
            r == (GridTopology { width: 100, height: 100, diagonal: false, num_long_range: NUM_LONG_RANGE_EDGES }),
    {
        Self::standard_100x100()
    }
}

/// Every position a cell's edges name lies within the grid's cell count.
proof fn lemma_cell_index_fits(t: GridTopology, row: int, col: int)
    requires
        0 <= row < t.height,
        0 <= col < t.width,
        t.width * t.height <= usize::MAX,
    ensures
        row * t.width + col < t.width * t.height,
        row + 1 < t.height ==> (row + 1) * t.width + col < t.width * t.height,
        col + 1 < t.width ==> row * t.width + col + 1 < t.width * t.height,
        row + 1 < t.height && col + 1 < t.width ==> (row + 1) * t.width + col + 1 < t.width * t.height,
{
    let w = t.width as int;
    let h = t.height as int;
    assert(row * w + col < w * h) by (nonlinear_arith)
        requires
            0 <= row < h,
            0 <= col < w,
    ;
    assert(row + 1 < h ==> (row + 1) * w + col < w * h) by (nonlinear_arith)
        requires
            0 <= row < h,
            0 <= col < w,
    ;
    assert(col + 1 < w ==> row * w + col + 1 < w * h) by (nonlinear_arith)
        requires
            0 <= row < h,
            0 <= col < w,
    ;
    assert(row + 1 < h && col + 1 < w ==> (row + 1) * w + col + 1 < w * h) by (nonlinear_arith)
        requires
            0 <= row < h,
            0 <= col < w,
    ;
}

/// The seed arithmetic of an in-range long-range edge fits in `usize`.
proof fn lemma_seed_fits(t: GridTopology, i: int)
    requires
        0 <= i < t.num_long_range,
        lr_seed(t.num_long_range as int) * 48271 <= usize::MAX,
    ensures
        lr_seed(i) * 48271 <= usize::MAX,
        i * 9301 + 49297 <= usize::MAX,
{
    assert(lr_seed(i) * 48271 <= lr_seed(t.num_long_range as int) * 48271) by (nonlinear_arith)
        requires
            0 <= i < t.num_long_range,
    ;
}

/// Inside a grid of at most 65,536 nodes, a position's node ID maps back to
/// the position.
pub proof fn law_coord_round_trip(t: GridTopology, row: int, col: int)
    requires
        0 <= row < t.height,
        0 <= col < t.width,
        t.width * t.height <= 65536,
    ensures
        grid_id(t, row, col) as int / t.width as int == row,
        grid_id(t, row, col) as int % t.width as int == col,
{
    let w = t.width as int;
    let h = t.height as int;
    assert(row * w + col < w * h) by (nonlinear_arith)
        requires
            0 <= row < h,
            0 <= col < w,
    ;
    assert(0 <= row * w) by (nonlinear_arith)
        requires
            0 <= row,
            0 <= w,
    ;
    vstd::arithmetic::div_mod::lemma_fundamental_div_mod_converse(row * w + col, w, row, col);
}

/// Whether grid cell `(r, c)` comes before cell `(row, col)` in row order.
pub open spec fn cell_before(r: int, c: int, row: int, col: int) -> bool {
    r < row || (r == row && c < col)
}

/// The edges that cell `(r, c)` adds itself: right, bottom and (with
/// diagonals) bottom-right, where those neighbours exist.
pub open spec fn own_edges(t: GridTopology, r: int, c: int) -> int {
    (if c + 1 < t.width { 1int } else { 0 }) + (if r + 1 < t.height { 1int } else { 0 }) + (if t.diagonal
        && r + 1 < t.height && c + 1 < t.width {
        1int
    } else {
        0
    })
}

/// How many grid edges of cell `(r, c)` have been added once the cells before
/// `(row, col)` are processed: its own, and those from its left, upper and
/// (with diagonals) upper-left neighbours.
pub open spec fn grid_edges_at(t: GridTopology, r: int, c: int, row: int, col: int) -> int {
    (if cell_before(r, c, row, col) { own_edges(t, r, c) } else { 0 }) + (if c > 0 && cell_before(
        r,
        c - 1,
        row,
        col,
    ) {
        1int
    } else {
        0
    }) + (if r > 0 && cell_before(r - 1, c, row, col) {
        1int
    } else {
        0
    }) + (if t.diagonal && r > 0 && c > 0 && cell_before(r - 1, c - 1, row, col) {
        1int
    } else {
        0
    })
}

/// The number of grid neighbours of cell `(r, c)`: left, right, up and down,
/// and with diagonals the upper-left and lower-right ones.
pub open spec fn grid_degree(t: GridTopology, r: int, c: int) -> int {
    (if c > 0 { 1int } else { 0 }) + (if c + 1 < t.width { 1int } else { 0 }) + (if r > 0 {
        1int
    } else {
        0
    }) + (if r + 1 < t.height { 1int } else { 0 }) + (if t.diagonal && r > 0 && c > 0 {
        1int
    } else {
        0
    }) + (if t.diagonal && r + 1 < t.height && c + 1 < t.width {
        1int
    } else {
        0
    })
}

/// The number of edges of a grid: `h(w-1)` horizontal, `(h-1)w` vertical and,
/// with diagonals, `(h-1)(w-1)` diagonal ones.
pub open spec fn grid_edge_count(t: GridTopology) -> int {
    let w = t.width as int;
    let h = t.height as int;
    if w == 0 || h == 0 {
        0
    } else {
        h * (w - 1) + (h - 1) * w + (if t.diagonal { (h - 1) * (w - 1) } else { 0 })
    }
}

/// The edges added by cells `0..cols` of row `r`.
pub open spec fn row_edge_total(t: GridTopology, r: int, cols: nat) -> int
    decreases cols,
{
    if cols == 0 {
        0
    } else {
        row_edge_total(t, r, (cols - 1) as nat) + own_edges(t, r, cols - 1)
    }
}

/// The edges added by rows `0..rows`.
pub open spec fn rows_edge_total(t: GridTopology, rows: nat) -> int
    decreases rows,
{
    if rows == 0 {
        0
    } else {
        rows_edge_total(t, (rows - 1) as nat) + row_edge_total(t, rows - 1, t.width as nat)
    }
}

/// The grid phase after the cells before `(row, col)`: every cell's list holds
/// the grid edges added so far, and the edge count is the number added.
pub open spec fn grid_phase_inv(t: GridTopology, s: AdjView, row: int, col: int) -> bool {
    &&& s.lists.len() == MAX_DIMENSION
    &&& forall|r: int, c: int|
        0 <= r < t.height && 0 <= c < t.width ==> (#[trigger] s.lists[grid_id(t, r, c) as int]).len()
            == grid_edges_at(t, r, c, row, col)
    &&& s.num_edges == rows_edge_total(t, row as nat) + row_edge_total(t, row, col as nat)
}

proof fn lemma_grid_id_facts(t: GridTopology, r: int, c: int)
    requires
        0 <= r < t.height,
        0 <= c < t.width,
        t.width * t.height <= MAX_DIMENSION,
    ensures
        grid_id(t, r, c) < MAX_DIMENSION,
        grid_id(t, r, c) == r * t.width + c,
{
    assert(0 <= r * t.width + c < t.width * t.height) by (nonlinear_arith)
        requires
            0 <= r < t.height,
            0 <= c < t.width,
    ;
}

proof fn lemma_grid_id_inj(t: GridTopology, r1: int, c1: int, r2: int, c2: int)
    requires
        0 <= r1 < t.height,
        0 <= c1 < t.width,
        0 <= r2 < t.height,
        0 <= c2 < t.width,
        t.width * t.height <= MAX_DIMENSION,
        grid_id(t, r1, c1) == grid_id(t, r2, c2),
    ensures
        r1 == r2,
        c1 == c2,
{
    law_coord_round_trip(t, r1, c1);
    law_coord_round_trip(t, r2, c2);
}

/// Adding an edge between two distinct grid cells whose lists have room.
proof fn lemma_grid_add(t: GridTopology, s: AdjView, u: MatrixIndex, v: MatrixIndex, weight: Fixed)
    requires
        s.lists.len() == MAX_DIMENSION,
        u < MAX_DIMENSION,
        v < MAX_DIMENSION,
        u != v,
        s.lists[u as int].len() < MAX_NEIGHBORS,
        s.lists[v as int].len() < MAX_NEIGHBORS,
    ensures
        add_edge_spec(s, u, v, weight).0.lists.len() == MAX_DIMENSION,
        add_edge_spec(s, u, v, weight).0.num_edges == s.num_edges + 1,
        forall|i: int|
            0 <= i < MAX_DIMENSION ==> (#[trigger] add_edge_spec(s, u, v, weight).0.lists[i]).len() == s.lists[i].len()
                + (if i == u || i == v { 1int } else { 0 }),
{
}

proof fn lemma_cell_counts(t: GridTopology, row: int, col: int, s: AdjView)
    requires
        0 <= row < t.height,
        0 <= col < t.width,
        t.width * t.height <= MAX_DIMENSION,
        grid_phase_inv(t, s, row, col),
    ensures
        grid_phase_inv(t, cell_step(t, row, col, s), row, col + 1),
{
    let w = t.width as int;
    let h = t.height as int;
    let node = grid_id(t, row, col);
    lemma_grid_id_facts(t, row, col);
    // Every count is at most six, so every list has room.
    assert forall|r: int, c: int| 0 <= r < h && 0 <= c < w implies (#[trigger] s.lists[grid_id(t, r, c) as int]).len()
        <= 6 by {}
    let s1 = if col + 1 < w {
        add_edge_spec(s, node, grid_id(t, row, col + 1), FIXED_ONE).0
    } else {
        s
    };
    if col + 1 < w {
        let a = grid_id(t, row, col + 1);
        lemma_grid_id_facts(t, row, col + 1);
        assert(s.lists[node as int].len() <= 6);
        assert(s.lists[a as int].len() <= 6);
        lemma_grid_add(t, s, node, a, FIXED_ONE);
    }
    let s2 = if row + 1 < h {
        add_edge_spec(s1, node, grid_id(t, row + 1, col), FIXED_ONE).0
    } else {
        s1
    };
    if row + 1 < h {
        let b = grid_id(t, row + 1, col);
        lemma_grid_id_facts(t, row + 1, col);
        assert(s.lists[node as int].len() <= 6);
        assert(s.lists[b as int].len() <= 6);
        if col + 1 < w {
            if b == grid_id(t, row, col + 1) {
                lemma_grid_id_inj(t, row + 1, col, row, col + 1);
            }
        }
        if b == node {
            lemma_grid_id_inj(t, row + 1, col, row, col);
        }
        lemma_grid_add(t, s1, node, b, FIXED_ONE);
    }
    let s3 = cell_step(t, row, col, s);
    if t.diagonal && row + 1 < h && col + 1 < w {
        let d = grid_id(t, row + 1, col + 1);
        lemma_grid_id_facts(t, row + 1, col + 1);
        assert(s.lists[node as int].len() <= 6);
        assert(s.lists[d as int].len() <= 6);
        if d == grid_id(t, row, col + 1) {
            lemma_grid_id_inj(t, row + 1, col + 1, row, col + 1);
        }
        if d == grid_id(t, row + 1, col) {
            lemma_grid_id_inj(t, row + 1, col + 1, row + 1, col);
        }
        if d == node {
            lemma_grid_id_inj(t, row + 1, col + 1, row, col);
        }
        lemma_grid_add(t, s2, node, d, DIAGONAL_WEIGHT);
    }
    assert forall|r: int, c: int| 0 <= r < h && 0 <= c < w implies (#[trigger] s3.lists[grid_id(
        t,
        r,
        c,
    ) as int]).len() == grid_edges_at(t, r, c, row, col + 1) by {
        let x = grid_id(t, r, c);
        lemma_grid_id_facts(t, r, c);
        if x == node {
            lemma_grid_id_inj(t, r, c, row, col);
        }
        if col + 1 < w && x == grid_id(t, row, col + 1) {
            lemma_grid_id_inj(t, r, c, row, col + 1);
        }
        if row + 1 < h && x == grid_id(t, row + 1, col) {
            lemma_grid_id_inj(t, r, c, row + 1, col);
        }
        if row + 1 < h && col + 1 < w && x == grid_id(t, row + 1, col + 1) {
            lemma_grid_id_inj(t, r, c, row + 1, col + 1);
        }
    }
    assert(row_edge_total(t, row, (col + 1) as nat) == row_edge_total(t, row, col as nat) + own_edges(
        t,
        row,
        col,
    ));
}

proof fn lemma_row_counts(t: GridTopology, row: int, cols: nat, s: AdjView)
    requires
        0 <= row < t.height,
        cols <= t.width,
        t.width * t.height <= MAX_DIMENSION,
        grid_phase_inv(t, s, row, 0),
    ensures
        grid_phase_inv(t, row_step(t, row, cols, s), row, cols as int),
    decreases cols,
{
    if cols > 0 {
        lemma_row_counts(t, row, (cols - 1) as nat, s);
        lemma_cell_counts(t, row, cols - 1, row_step(t, row, (cols - 1) as nat, s));
    }
}

proof fn lemma_rows_counts(t: GridTopology, rows: nat)
    requires
        rows <= t.height,
        t.width * t.height <= MAX_DIMENSION,
    ensures
        grid_phase_inv(t, rows_state(t, rows), rows as int, 0),
    decreases rows,
{
    if rows == 0 {
        let s = empty_adj();
        assert forall|r: int, c: int| 0 <= r < t.height && 0 <= c < t.width implies (
        #[trigger] s.lists[grid_id(t, r, c) as int]).len() == grid_edges_at(t, r, c, 0, 0) by {
            lemma_grid_id_facts(t, r, c);
        }
    } else {
        let prev = rows_state(t, (rows - 1) as nat);
        lemma_rows_counts(t, (rows - 1) as nat);
        lemma_row_counts(t, rows - 1, t.width as nat, prev);
        let s = rows_state(t, rows);
        assert forall|r: int, c: int| 0 <= r < t.height && 0 <= c < t.width implies grid_edges_at(
            t,
            r,
            c,
            rows - 1,
            t.width as int,
        ) == #[trigger] grid_edges_at(t, r, c, rows as int, 0) by {}
    }
}

proof fn lemma_row_edge_total(t: GridTopology, r: int, cols: nat)
    requires
        cols <= t.width,
        t.width >= 1,
    ensures
        row_edge_total(t, r, cols) == (if cols < t.width { cols as int } else { t.width - 1 }) + (if r
            + 1 < t.height {
            cols as int
        } else {
            0
        }) + (if t.diagonal && r + 1 < t.height {
            if cols < t.width {
                cols as int
            } else {
                t.width - 1
            }
        } else {
            0
        }),
    decreases cols,
{
    if cols > 0 {
        lemma_row_edge_total(t, r, (cols - 1) as nat);
    }
}

proof fn lemma_rows_edge_total(t: GridTopology, rows: nat)
    requires
        1 <= rows <= t.height,
        t.width >= 1,
    ensures
        rows_edge_total(t, rows) == rows * (t.width - 1) + (rows - 1) * t.width + (if rows < t.height {
            t.width as int
        } else {
            0
        }) + (if t.diagonal {
            (rows - 1) * (t.width - 1) + (if rows < t.height { t.width - 1 } else { 0 })
        } else {
            0
        }),
    decreases rows,
{
    let w = t.width as int;
    lemma_row_edge_total(t, rows - 1, t.width as nat);
    if rows == 1 {
        assert(rows * (w - 1) == w - 1 && (rows - 1) * w == 0 && (rows - 1) * (w - 1) == 0) by (nonlinear_arith)
            requires
                rows == 1,
        ;
        assert(rows_edge_total(t, 0) == 0);
    }
    if rows > 1 {
        lemma_rows_edge_total(t, (rows - 1) as nat);
        assert(rows * (w - 1) == (rows - 1) * (w - 1) + (w - 1)) by (nonlinear_arith);
        assert((rows - 1) * w == (rows - 2) * w + w) by (nonlinear_arith);
        assert((rows - 1) * (w - 1) == (rows - 2) * (w - 1) + (w - 1)) by (nonlinear_arith);
    }
}

/// A pure grid (no long-range edges) within the node range has, for every
/// cell, one list entry per grid neighbour (so its degree counts its
/// neighbours), and exactly `h(w-1) + (h-1)w` edges, plus `(h-1)(w-1)` with
/// diagonals.
pub proof fn law_grid_degrees_and_edges(t: GridTopology, r: int, c: int)
    requires
        t.num_long_range == 0,
        t.width * t.height <= MAX_DIMENSION,
        0 <= r < t.height,
        0 <= c < t.width,
    ensures
        generate_spec(t).lists[grid_id(t, r, c) as int].len() == grid_degree(t, r, c),
        generate_spec(t).num_edges == grid_edge_count(t),
{
    lemma_rows_counts(t, t.height as nat);
    let s = rows_state(t, t.height as nat);
    assert(generate_spec(t) == s);
    assert(s.lists[grid_id(t, r, c) as int].len() == grid_edges_at(t, r, c, t.height as int, 0));
    assert(t.width >= 1);
    lemma_rows_edge_total(t, t.height as nat);
    assert(row_edge_total(t, t.height as int, 0) == 0);
}

/// The off-diagonal entry of an edge weight: its negation, where the most
/// negative weight stays as it is (the negation wraps).
pub open spec fn neg_weight(w: Fixed) -> Fixed {
    if w == i32::MIN {
        i32::MIN
    } else {
        (-w) as Fixed
    }
}

/// Off-diagonal entries of one node's neighbours added to `acc`; a
/// neighbour equal to the node itself adds nothing.
pub open spec fn neighbors_step(s: Seq<(MatrixIndex, Fixed)>, node: MatrixIndex, acc: SparseView, cap: nat) -> SparseView
    decreases s.len(),
{
    if s.len() == 0 {
        acc
    } else {
        let prev = neighbors_step(s.drop_last(), node, acc, cap);
        if s.last().0 != node {
            try_set(prev, cap, node, s.last().0, neg_weight(s.last().1), 0)
        } else {
            prev
        }
    }
}

/// One Laplacian row added to `acc`: the degree on the diagonal (when
/// nonzero), then the negated weight of each neighbour.
pub open spec fn laplacian_row(a: AdjView, node: MatrixIndex, acc: SparseView, cap: nat) -> SparseView {
    let deg = degree_spec(a.lists[node as int]);
    let d = if deg != 0 {
        try_set(acc, cap, node, node, deg, 0)
    } else {
        acc
    };
    neighbors_step(a.lists[node as int], node, d, cap)
}

/// Rows `0..k` of the Laplacian of `a`.
pub open spec fn laplacian_rows(a: AdjView, k: nat, cap: nat) -> SparseView
    decreases k,
{
    if k == 0 {
        empty_view(a.actual_nodes as MatrixIndex)
    } else {
        laplacian_row(a, (k - 1) as MatrixIndex, laplacian_rows(a, (k - 1) as nat, cap), cap)
    }
}

/// The combinatorial Laplacian of `a` with at most `cap` stored entries
/// (stores beyond the capacity are dropped).
pub open spec fn laplacian_spec(a: AdjView, cap: nat) -> SparseView {
    laplacian_rows(a, a.actual_nodes, cap)
}

/// Builder of Laplacian matrices.
pub struct LaplacianBuilder;

impl LaplacianBuilder {
    /// The combinatorial Laplacian L = D - A of an adjacency list, over its
    /// node range.
    pub fn build_combinatorial<const MAX_ELEM: usize>(adj: &AdjacencyList) -> (r: SparseMatrix<MAX_ELEM>)
        requires
            adj.wf(),
        ensures
            r@ == laplacian_spec(adj@, MAX_ELEM as nat),
    {
        let n = adj.num_nodes() as MatrixIndex;
        let mut laplacian: SparseMatrix<MAX_ELEM> = SparseMatrix::new(n);
        let mut node: MatrixIndex = 0;
        while node < n
            invariant
                adj.wf(),
                n == adj@.actual_nodes,
                node <= n,
                laplacian@ == laplacian_rows(adj@, node as nat, MAX_ELEM as nat),
            decreases n - node,
        {
            let ghost start = laplacian@;
            let degree = adj.degree(node);
            if degree != 0 {
                let _ = laplacian.set(node, node, degree, 0);
            }
            let ghost d = laplacian@;
            let nbrs = adj.iter_neighbors(node);
            let ghost s = adj@.lists[node as int];
            let mut j: usize = 0;
            while j < nbrs.len()
                invariant
                    nbrs@ == s,
                    j <= s.len(),
                    laplacian@ == neighbors_step(s.take(j as int), node, d, MAX_ELEM as nat),
                decreases s.len() - j,
            {
                assert(s.take(j + 1).drop_last() == s.take(j as int));
                let (neighbor, weight) = nbrs[j];
                if neighbor != node {
                    let neg = #[verifier::truncate] ((-(weight as i64)) as Fixed);
                    assert(neg == neg_weight(weight)) by (bit_vector)
                        requires
                            neg == #[verifier::truncate] ((-(weight as i64)) as i32),
                    ;
                    let _ = laplacian.set(node, neighbor, neg, 0);
                }
                j += 1;
            }
            assert(s.take(s.len() as int) == s);
            node += 1;
        }
        laplacian
    }
}

/// The weight of the newest entry for neighbour `c` in a list, if any.
pub open spec fn last_weight(s: Seq<(MatrixIndex, Fixed)>, c: MatrixIndex) -> Option<Fixed>
    decreases s.len(),
{
    if s.len() == 0 {
        None
    } else if s.last().0 == c {
        Some(s.last().1)
    } else {
        last_weight(s.drop_last(), c)
    }
}

/// The Laplacian entry `(r, c)` of an adjacency list: the degree on the
/// diagonal, the negated weight of the newest entry for `c` in `r`'s list
/// off the diagonal, zero when `c` is no neighbour.
pub open spec fn laplacian_entry(a: AdjView, r: MatrixIndex, c: MatrixIndex) -> Fixed {
    if r == c {
        degree_spec(a.lists[r as int])
    } else {
        match last_weight(a.lists[r as int], c) {
            Some(w) => neg_weight(w),
            None => 0,
        }
    }
}

/// A store inside the dimension of a matrix below capacity succeeds; every
/// attempted store adds at most one entry and keeps the dimension.
proof fn lemma_try_set_facts(v: SparseView, cap: nat, row: u16, col: u16, re: i32, im: i32)
    ensures
        try_set(v, cap, row, col, re, im).dimension == v.dimension,
        try_set(v, cap, row, col, re, im).elements.len() <= v.elements.len() + 1,
        row < v.dimension && col < v.dimension && v.elements.len() < cap ==> set_spec(
            v,
            cap,
            row,
            col,
            re,
            im,
        ) is Some,
{
    crate::sparse::lemma_find_key_props(v.elements, row, col);
}

/// What a row's neighbour entries do to a matrix with room for them.
proof fn lemma_neighbors_step(s: Seq<(MatrixIndex, Fixed)>, node: MatrixIndex, acc: SparseView, cap: nat)
    requires
        node < acc.dimension,
        forall|j: int| 0 <= j < s.len() ==> (#[trigger] s[j]).0 < acc.dimension,
        acc.elements.len() + s.len() <= cap,
    ensures
        ({
            let res = neighbors_step(s, node, acc, cap);
            &&& res.dimension == acc.dimension
            &&& res.elements.len() <= acc.elements.len() + s.len()
            &&& forall|r2: u16, c2: u16|
                r2 != node ==> #[trigger] get_spec(res, r2, c2) == get_spec(acc, r2, c2)
            &&& get_spec(res, node, node) == get_spec(acc, node, node)
            &&& forall|c2: u16|
                c2 != node ==> #[trigger] get_spec(res, node, c2) == match last_weight(s, c2) {
                    Some(w) => SparseElement { row: node, col: c2, re: neg_weight(w), im: 0 },
                    None => get_spec(acc, node, c2),
                }
        }),
    decreases s.len(),
{
    if s.len() > 0 {
        let d = s.drop_last();
        assert forall|j: int| 0 <= j < d.len() implies (#[trigger] d[j]).0 < acc.dimension by {
            assert(d[j] == s[j]);
        }
        lemma_neighbors_step(d, node, acc, cap);
        let prev = neighbors_step(d, node, acc, cap);
        let e = s.last();
        assert(e == s[s.len() - 1]);
        if e.0 != node {
            lemma_try_set_facts(prev, cap, node, e.0, neg_weight(e.1), 0);
            assert forall|r2: u16, c2: u16| r2 != node implies #[trigger] get_spec(
                neighbors_step(s, node, acc, cap),
                r2,
                c2,
            ) == get_spec(acc, r2, c2) by {
                crate::sparse::law_get_after_set(prev, cap, node, e.0, neg_weight(e.1), 0, r2, c2);
            }
            crate::sparse::law_get_after_set(prev, cap, node, e.0, neg_weight(e.1), 0, node, node);
            assert forall|c2: u16| c2 != node implies #[trigger] get_spec(neighbors_step(s, node, acc, cap), node, c2)
                == match last_weight(s, c2) {
                Some(w) => SparseElement { row: node, col: c2, re: neg_weight(w), im: 0 },
                None => get_spec(acc, node, c2),
            } by {
                crate::sparse::law_get_after_set(prev, cap, node, e.0, neg_weight(e.1), 0, node, c2);
            }
        } else {
            assert forall|c2: u16| c2 != node implies #[trigger] get_spec(neighbors_step(s, node, acc, cap), node, c2)
                == match last_weight(s, c2) {
                Some(w) => SparseElement { row: node, col: c2, re: neg_weight(w), im: 0 },
                None => get_spec(acc, node, c2),
            } by {
                assert(get_spec(prev, node, c2) == match last_weight(d, c2) {
                    Some(w) => SparseElement { row: node, col: c2, re: neg_weight(w), im: 0 },
                    None => get_spec(acc, node, c2),
                });
            }
        }
    }
}

/// The prefix `0..k` of the lists holds no more entries than all of them.
proof fn lemma_total_prefix(lists: Seq<Seq<(MatrixIndex, Fixed)>>, k: int)
    requires
        0 <= k <= lists.len(),
    ensures
        total_entries(lists.take(k)) <= total_entries(lists),
    decreases lists.len() - k,
{
    if k < lists.len() {
        lemma_total_prefix(lists, k + 1);
        assert(lists.take(k + 1).drop_last() == lists.take(k));
    } else {
        assert(lists.take(k) == lists);
    }
}

/// Rows `0..k` of the Laplacian hold their entries and the other rows are
/// still empty, when there is room for every store.
proof fn lemma_laplacian_rows(a: AdjView, k: nat, cap: nat)
    requires
        adj_wf(a),
        k <= a.actual_nodes,
        a.actual_nodes + total_entries(a.lists) <= cap,
    ensures
        ({
            let v = laplacian_rows(a, k, cap);
            &&& v.dimension == a.actual_nodes
            &&& v.elements.len() <= k + total_entries(a.lists.take(k as int))
            &&& forall|r: u16, c: u16|
                r < k && c < a.actual_nodes ==> #[trigger] get_spec(v, r, c) == SparseElement {
                    row: r,
                    col: c,
                    re: laplacian_entry(a, r, c),
                    im: 0,
                }
            &&& forall|r: u16, c: u16|
                k <= r < a.actual_nodes && c < a.actual_nodes ==> #[trigger] get_spec(v, r, c)
                    == SparseElement { row: r, col: c, re: 0, im: 0 }
        }),
    decreases k,
{
    let d = a.actual_nodes;
    if k == 0 {
        let v = empty_view(d as MatrixIndex);
        assert forall|r: u16, c: u16| 0 <= r < d && c < d implies #[trigger] get_spec(v, r, c) == SparseElement {
            row: r,
            col: c,
            re: 0,
            im: 0,
        } by {
            crate::sparse::lemma_find_key_props(v.elements, r, c);
        }
        assert(a.lists.take(0) =~= Seq::<Seq<(MatrixIndex, Fixed)>>::empty());
    } else {
        let km = (k - 1) as nat;
        lemma_laplacian_rows(a, km, cap);
        let acc = laplacian_rows(a, km, cap);
        let node = km as MatrixIndex;
        let list = a.lists[node as int];
        lemma_total_prefix(a.lists, k as int);
        assert(a.lists.take(k as int).drop_last() == a.lists.take(km as int));
        assert(a.lists.take(k as int).last() == list);
        let deg = degree_spec(list);
        let dacc = if deg != 0 {
            try_set(acc, cap, node, node, deg, 0)
        } else {
            acc
        };
        lemma_try_set_facts(acc, cap, node, node, deg, 0);
        if deg != 0 {
            assert forall|r2: u16, c2: u16| true implies (r2 != node || c2 != node ==> #[trigger] get_spec(
                dacc,
                r2,
                c2,
            ) == get_spec(acc, r2, c2)) by {
                crate::sparse::law_get_after_set(acc, cap, node, node, deg, 0, r2, c2);
            }
            crate::sparse::law_get_after_set(acc, cap, node, node, deg, 0, node, node);
        }
        assert forall|j: int| 0 <= j < list.len() implies (#[trigger] list[j]).0 < dacc.dimension by {
            assert(a.lists[node as int][j].0 < a.actual_nodes);
        }
        lemma_neighbors_step(list, node, dacc, cap);
        let v = laplacian_rows(a, k, cap);
        assert(v == neighbors_step(list, node, dacc, cap));
        assert forall|r: u16, c: u16| r < k && c < d implies #[trigger] get_spec(v, r, c) == SparseElement {
            row: r,
            col: c,
            re: laplacian_entry(a, r, c),
            im: 0,
        } by {
            if r == node {
                if c == node {
                    assert(get_spec(acc, node, node) == SparseElement { row: node, col: node, re: 0, im: 0 });
                } else {
                    assert(get_spec(acc, node, c) == SparseElement { row: node, col: c, re: 0, im: 0 });
                    assert(get_spec(dacc, node, c) == get_spec(acc, node, c));
                }
            } else {
                assert(get_spec(v, r, c) == get_spec(dacc, r, c));
                assert(get_spec(dacc, r, c) == get_spec(acc, r, c));
            }
        }
        assert forall|r: u16, c: u16| k <= r < d && c < d implies #[trigger] get_spec(v, r, c) == SparseElement {
            row: r,
            col: c,
            re: 0,
            im: 0,
        } by {
            assert(get_spec(v, r, c) == get_spec(dacc, r, c));
            assert(get_spec(dacc, r, c) == get_spec(acc, r, c));
        }
    }
}

/// The Laplacian is L = D - A: when there is room for every store, each
/// entry inside the node range reads as the degree on the diagonal and as
/// the negated edge weight (of the newest entry for that neighbour) off it,
/// with a zero imaginary part.
pub proof fn law_laplacian_is_degree_minus_adjacency(a: AdjView, cap: nat, r: MatrixIndex, c: MatrixIndex)
    requires
        adj_wf(a),
        a.actual_nodes + total_entries(a.lists) <= cap,
        r < a.actual_nodes,
        c < a.actual_nodes,
    ensures
        get_spec(laplacian_spec(a, cap), r, c) == (SparseElement { row: r, col: c, re: laplacian_entry(a, r, c), im: 0 }),
{
    lemma_laplacian_rows(a, a.actual_nodes, cap);
}

/// The weights of a list added as integers.
pub open spec fn weight_sum(s: Seq<(MatrixIndex, Fixed)>) -> int
    decreases s.len(),
{
    if s.len() == 0 {
        0
    } else {
        weight_sum(s.drop_last()) + s.last().1
    }
}

/// The real parts a matrix holds in row `r` at the neighbours of a list.
pub open spec fn row_entry_sum(l: SparseView, r: MatrixIndex, s: Seq<(MatrixIndex, Fixed)>) -> int
    decreases s.len(),
{
    if s.len() == 0 {
        0
    } else {
        row_entry_sum(l, r, s.drop_last()) + get_spec(l, r, s.last().0).re
    }
}

/// A list names every neighbour once and never the node itself.
pub open spec fn simple_neighbors(s: Seq<(MatrixIndex, Fixed)>, r: MatrixIndex) -> bool {
    &&& forall|i: int, j: int| 0 <= i < j < s.len() ==> (#[trigger] s[i]).0 != (#[trigger] s[j]).0
    &&& forall|i: int| 0 <= i < s.len() ==> (#[trigger] s[i]).0 != r
}

/// Adding the weights in order never leaves `i32`, and no weight is the
/// most negative `i32`.
pub open spec fn weights_fit(s: Seq<(MatrixIndex, Fixed)>) -> bool {
    &&& forall|k: int| 0 <= k <= s.len() ==> i32::MIN <= #[trigger] weight_sum(s.take(k)) <= i32::MAX
    &&& forall|i: int| 0 <= i < s.len() ==> (#[trigger] s[i]).1 != i32::MIN
}

proof fn lemma_degree_is_weight_sum(s: Seq<(MatrixIndex, Fixed)>)
    requires
        weights_fit(s),
    ensures
        degree_spec(s) == weight_sum(s),
    decreases s.len(),
{
    if s.len() > 0 {
        let d = s.drop_last();
        assert forall|k: int| 0 <= k <= d.len() implies i32::MIN <= #[trigger] weight_sum(d.take(k)) <= i32::MAX by {
            assert(d.take(k) == s.take(k));
        }
        assert forall|i: int| 0 <= i < d.len() implies (#[trigger] d[i]).1 != i32::MIN by {
            assert(d[i] == s[i]);
        }
        lemma_degree_is_weight_sum(d);
        assert(s.take(s.len() as int) == s);
    }
}

proof fn lemma_last_weight_distinct(s: Seq<(MatrixIndex, Fixed)>, j: int)
    requires
        0 <= j < s.len(),
        forall|a: int, b: int| 0 <= a < b < s.len() ==> (#[trigger] s[a]).0 != (#[trigger] s[b]).0,
    ensures
        last_weight(s, s[j].0) == Some(s[j].1),
    decreases s.len(),
{
    if j < s.len() - 1 {
        let d = s.drop_last();
        assert(s.last() == s[s.len() - 1]);
        assert(s[j].0 != s[s.len() - 1].0);
        assert forall|a: int, b: int| 0 <= a < b < d.len() implies (#[trigger] d[a]).0 != (#[trigger] d[b]).0 by {
            assert(d[a] == s[a] && d[b] == s[b]);
        }
        lemma_last_weight_distinct(d, j);
        assert(d[j] == s[j]);
    }
}

proof fn lemma_row_entry_sum_prefix(l: SparseView, r: MatrixIndex, s: Seq<(MatrixIndex, Fixed)>, k: int)
    requires
        0 <= k <= s.len(),
        forall|j: int| 0 <= j < s.len() ==> get_spec(l, r, (#[trigger] s[j]).0).re == -s[j].1,
    ensures
        row_entry_sum(l, r, s.take(k)) == -weight_sum(s.take(k)),
    decreases k,
{
    if k > 0 {
        lemma_row_entry_sum_prefix(l, r, s, k - 1);
        assert(s.take(k).drop_last() == s.take(k - 1));
        assert(s.take(k).last() == s[k - 1]);
    }
}

/// Rows of the Laplacian sum to zero: for a node whose list names each
/// neighbour once, never itself, with weights whose running sum stays in
/// `i32`, the diagonal entry plus the entries at its neighbours is zero
/// (when there is room for every store).
pub proof fn law_laplacian_row_sum_zero(a: AdjView, cap: nat, r: MatrixIndex)
    requires
        adj_wf(a),
        a.actual_nodes + total_entries(a.lists) <= cap,
        r < a.actual_nodes,
        simple_neighbors(a.lists[r as int], r),
        weights_fit(a.lists[r as int]),
    ensures
        get_spec(laplacian_spec(a, cap), r, r).re + row_entry_sum(laplacian_spec(a, cap), r, a.lists[r as int]) == 0,
{
    let l = laplacian_spec(a, cap);
    let s = a.lists[r as int];
    law_laplacian_is_degree_minus_adjacency(a, cap, r, r);
    lemma_degree_is_weight_sum(s);
    assert forall|j: int| 0 <= j < s.len() implies get_spec(l, r, (#[trigger] s[j]).0).re == -s[j].1 by {
        assert(a.lists[r as int][j].0 < a.actual_nodes);
        law_laplacian_is_degree_minus_adjacency(a, cap, r, s[j].0);
        lemma_last_weight_distinct(s, j);
    }
    lemma_row_entry_sum_prefix(l, r, s, s.len() as int);
    assert(s.take(s.len() as int) == s);
}

/// The Laplacian of a symmetric adjacency is symmetric: when `r`'s newest
/// entry for `c` and `c`'s newest entry for `r` carry the same weight (or
/// neither exists), `L[r][c] == L[c][r]` (when there is room for every
/// store).
pub proof fn law_laplacian_symmetric(a: AdjView, cap: nat, r: MatrixIndex, c: MatrixIndex)
    requires
        adj_wf(a),
        a.actual_nodes + total_entries(a.lists) <= cap,
        r < a.actual_nodes,
        c < a.actual_nodes,
        last_weight(a.lists[r as int], c) == last_weight(a.lists[c as int], r),
    ensures
        get_spec(laplacian_spec(a, cap), r, c).re == get_spec(laplacian_spec(a, cap), c, r).re,
{
    law_laplacian_is_degree_minus_adjacency(a, cap, r, c);
    law_laplacian_is_degree_minus_adjacency(a, cap, c, r);
}

} // verus!
