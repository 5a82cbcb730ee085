//! Regions of a text detection mask: the groups of marked cells, joined
//! through their left, right, upper and lower neighbours, that become text
//! boxes.
use vstd::arithmetic::div_mod::{lemma_fundamental_div_mod, lemma_fundamental_div_mod_converse, lemma_mod_pos_bound};
use vstd::prelude::*;

use crate::ocr::pp_ocr::{neighbors, spec_neighbors};

verus! {

/// One region of marked cells of a row-major grid.
pub struct MaskComponent {
    /// Cell indexes in the order the fill reached them; the first is the
    /// cell the fill started from.
    pub cells: Vec<usize>,
    /// Smallest column of a cell.
    pub min_x: usize,
    /// Smallest row of a cell.
    pub min_y: usize,
    /// Largest column of a cell.
    pub max_x: usize,
    /// Largest row of a cell.
    pub max_y: usize,
}

/// Indexes of the cells next to cell `c` of a `w` by `h` grid, in the order
/// left, right, up, down.
pub open spec fn neighbor_cells(c: usize, w: usize, h: usize) -> Seq<int> {
    spec_neighbors(c % w, c / w, w, h).map_values(|p: (usize, usize)| p.1 * w + p.0)
}

/// A cell index splits into its row and column.
pub proof fn lemma_cell_coords(c: usize, w: usize, h: usize)
    requires
        w > 0,
        c < w * h,
    ensures
        c == (c / w) * w + c % w,
        c % w < w,
        c / w < h,
{
    lemma_fundamental_div_mod(c as int, w as int);
    lemma_mod_pos_bound(c as int, w as int);
    let y = c / w;
    assert(w * y == y * w) by (nonlinear_arith);
    assert(y < h) by (nonlinear_arith)
        requires
            c == w * y + c % w,
            c % w >= 0,
            c < w * h,
            w > 0,
            y >= 0,
    ;
}

/// The cell at a column below the width and a row below the height lies in
/// the grid and has that row and column.
pub proof fn lemma_cell_at(x: int, y: int, w: usize, h: usize)
    requires
        w > 0,
        0 <= x < w,
        0 <= y < h,
    ensures
        0 <= y * w + x < w * h,
        (y * w + x) % (w as int) == x,
        (y * w + x) / (w as int) == y,
{
    lemma_fundamental_div_mod_converse(y * w + x, w as int, y, x);
    assert(y * w + x < w * h) by (nonlinear_arith)
        requires
            0 <= x < w,
            0 <= y < h,
    ;
    assert(0 <= y * w) by (nonlinear_arith)
        requires
            0 <= y,
            0 < w,
    ;
}

/// Neighbours of a cell lie in the grid, and the cell is a neighbour of each
/// of them.
pub proof fn lemma_neighbor_cells(c: usize, w: usize, h: usize, t: int)
    requires
        w > 0,
        c < w * h,
        w * h <= usize::MAX,
        0 <= t < neighbor_cells(c, w, h).len(),
    ensures
        0 <= neighbor_cells(c, w, h)[t] < w * h,
        neighbor_cells((neighbor_cells(c, w, h)[t]) as usize, w, h).contains(c as int),
{
    lemma_cell_coords(c, w, h);
    let x = c % w;
    let y = c / w;
    let q = neighbor_cells(c, w, h)[t];
    let p = spec_neighbors(x, y, w, h)[t];
    assert(q == p.1 * w + p.0);
    lemma_cell_at(p.0 as int, p.1 as int, w, h);
    let qu = q as usize;
    assert(qu % w == p.0 && qu / w == p.1);
    let back = spec_neighbors(qu % w, qu / w, w, h);
    let cells = neighbor_cells(qu, w, h);
    if p.0 + 1 == x {
        let i: int = if p.0 > 0 { 1 } else { 0 };
        assert(back[i] == (x, y));
        assert(cells[i] == c);
    } else if p.0 == x + 1 {
        assert(back[0] == (x, y));
        assert(cells[0] == c);
    } else if p.1 + 1 == y {
        let i: int = (if p.0 > 0 { 1int } else { 0int }) + (if p.0 + 1 < w { 1int } else { 0int }) + (
        if p.1 > 0 {
            1int
        } else {
            0int
        });
        assert(back[i] == (x, y));
        assert(cells[i] == c);
    } else {
        let i: int = (if p.0 > 0 { 1int } else { 0int }) + (if p.0 + 1 < w { 1int } else { 0int });
        assert(back[i] == (x, y));
        assert(cells[i] == c);
    }
}


/// Whether cell `i` belongs to one of the regions.
pub open spec fn in_regions(regions: Seq<MaskComponent>, i: int) -> bool {
    exists|k: int, j: int|
        0 <= k < regions.len() && 0 <= j < regions[k].cells@.len() && #[trigger] regions[k].cells@[j] == i
}

/// Cells of a region: marked cells of the grid, each once, none of them
/// before the first in the grid.
pub open spec fn region_cells(cells: Seq<usize>, mask: Seq<bool>) -> bool {
    &&& cells.len() > 0
    &&& cells.no_duplicates()
    &&& forall|j: int|
        0 <= j < cells.len() ==> #[trigger] cells[j] < mask.len() && mask[cells[j] as int] && cells[0] <= cells[j]
}

/// Every marked neighbour of a cell of the region is in the region.
pub open spec fn region_closed(cells: Seq<usize>, mask: Seq<bool>, w: usize, h: usize) -> bool {
    forall|j: int, t: int|
        0 <= j < cells.len() && 0 <= t < neighbor_cells(cells[j], w, h).len() && mask[#[trigger] neighbor_cells(
            cells[j],
            w,
            h,
        )[t]] ==> cells.contains(neighbor_cells(cells[j], w, h)[t] as usize)
}

/// Every cell of the region but the first is a neighbour of a cell before it.
pub open spec fn region_connected(cells: Seq<usize>, w: usize, h: usize) -> bool {
    forall|j: int| 0 < j < cells.len() ==> #[trigger] joined_before(cells, j, w, h)
}

/// Whether cell `j` of `cells` is a neighbour of a cell before it.
pub open spec fn joined_before(cells: Seq<usize>, j: int, w: usize, h: usize) -> bool {
    exists|p: int| 0 <= p < j && #[trigger] neighbor_cells(cells[p], w, h).contains(cells[j] as int)
}

/// The box spans the columns and rows of the cells, and no more.
pub open spec fn cells_box(cells: Seq<usize>, w: usize, min_x: usize, min_y: usize, max_x: usize, max_y: usize) -> bool {
    &&& forall|j: int|
        0 <= j < cells.len() ==> min_x <= #[trigger] cells[j] % w <= max_x && min_y <= cells[j] / w <= max_y
    &&& exists|j: int| 0 <= j < cells.len() && #[trigger] cells[j] % w == min_x
    &&& exists|j: int| 0 <= j < cells.len() && #[trigger] cells[j] / w == min_y
    &&& exists|j: int| 0 <= j < cells.len() && #[trigger] cells[j] % w == max_x
    &&& exists|j: int| 0 <= j < cells.len() && #[trigger] cells[j] / w == max_y
}

/// A region of a `w` by `h` mask: its marked cells, closed under marked
/// neighbours, connected, with its bounding box.
pub open spec fn is_region(region: MaskComponent, mask: Seq<bool>, w: usize, h: usize) -> bool {
    &&& region_cells(region.cells@, mask)
    &&& region_closed(region.cells@, mask, w, h)
    &&& region_connected(region.cells@, w, h)
    &&& cells_box(region.cells@, w, region.min_x, region.min_y, region.max_x, region.max_y)
}

/// No cell is in two regions.
pub open spec fn regions_disjoint(regions: Seq<MaskComponent>) -> bool {
    forall|k1: int, k2: int, j1: int, j2: int|
        0 <= k1 < regions.len() && 0 <= k2 < regions.len() && k1 != k2 && 0 <= j1 < regions[k1].cells@.len() && 0
            <= j2 < regions[k2].cells@.len() ==> #[trigger] regions[k1].cells@[j1] != #[trigger] regions[k2].cells@[j2]
}

/// Regions come in the order of their first cells.
pub open spec fn regions_ordered(regions: Seq<MaskComponent>) -> bool {
    forall|k1: int, k2: int|
        0 <= k1 < k2 < regions.len() ==> #[trigger] regions[k1].cells@[0] < #[trigger] regions[k2].cells@[0]
}

/// A sequence holds what its first elements hold and its last one.
proof fn lemma_contains_pop<A>(s: Seq<A>)
    requires
        s.len() > 0,
    ensures
        forall|x: A| #[trigger] s.contains(x) <==> (s.drop_last().contains(x) || x == s.last()),
{
    assert(s =~= s.drop_last().push(s.last()));
    assert forall|x: A| #[trigger] s.contains(x) <==> (s.drop_last().contains(x) || x == s.last()) by {
        vstd::seq_lib::lemma_seq_contains_after_push(s.drop_last(), s.last(), x);
    }
}

/// Number of cells not yet visited.
pub open spec fn unvisited(v: Seq<bool>) -> nat
    decreases v.len(),
{
    if v.len() == 0 {
        0
    } else {
        unvisited(v.drop_last()) + if v.last() {
            0nat
        } else {
            1nat
        }
    }
}

/// Visiting a cell leaves one cell fewer unvisited.
pub proof fn lemma_mark_visited(v: Seq<bool>, i: int)
    requires
        0 <= i < v.len(),
        !v[i],
    ensures
        unvisited(v.update(i, true)) + 1 == unvisited(v),
    decreases v.len(),
{
    if i == v.len() - 1 {
        assert(v.update(i, true).drop_last() =~= v.drop_last());
    } else {
        lemma_mark_visited(v.drop_last(), i);
        assert(v.update(i, true).drop_last() =~= v.drop_last().update(i, true));
    }
}

/// Visited flags and stack after the fill looks at the neighbours `ns[t..]`
/// of a taken cell: each one that is in the grid, not yet visited and marked
/// is marked visited and pushed, in order.
pub open spec fn push_fill_neighbors(
    mask: Seq<bool>,
    visited: Seq<bool>,
    stack: Seq<usize>,
    ns: Seq<int>,
    t: int,
) -> (Seq<bool>, Seq<usize>)
    decreases ns.len() - t,
{
    if t < 0 || t >= ns.len() {
        (visited, stack)
    } else {
        let q = ns[t];
        if 0 <= q < visited.len() && q < mask.len() && !visited[q] && mask[q] {
            push_fill_neighbors(mask, visited.update(q, true), stack.push(q as usize), ns, t + 1)
        } else {
            push_fill_neighbors(mask, visited, stack, ns, t + 1)
        }
    }
}

/// Pushing neighbours marks one cell visited per pushed cell.
pub proof fn lemma_push_fill_measure(mask: Seq<bool>, visited: Seq<bool>, stack: Seq<usize>, ns: Seq<int>, t: int)
    ensures
        push_fill_neighbors(mask, visited, stack, ns, t).0.len() == visited.len(),
        2 * unvisited(push_fill_neighbors(mask, visited, stack, ns, t).0) + push_fill_neighbors(
            mask,
            visited,
            stack,
            ns,
            t,
        ).1.len() <= 2 * unvisited(visited) + stack.len(),
    decreases ns.len() - t,
{
    if t < 0 || t >= ns.len() {
    } else {
        let q = ns[t];
        if 0 <= q < visited.len() && q < mask.len() && !visited[q] && mask[q] {
            lemma_mark_visited(visited, q);
            lemma_push_fill_measure(mask, visited.update(q, true), stack.push(q as usize), ns, t + 1);
        } else {
            lemma_push_fill_measure(mask, visited, stack, ns, t + 1);
        }
    }
}

/// Cells the fill takes, in order, from visited flags and a stack of cells
/// waiting: it takes the last waiting cell, pushes that cell's unvisited
/// marked neighbours in the order left, right, up, down, and goes on until
/// no cell waits.
pub open spec fn fill_order(mask: Seq<bool>, w: usize, h: usize, visited: Seq<bool>, stack: Seq<usize>) -> Seq<
    usize,
>
    decreases 2 * unvisited(visited) + stack.len(),
{
    if stack.len() == 0 {
        seq![]
    } else {
        let c = stack.last();
        let next = push_fill_neighbors(mask, visited, stack.drop_last(), neighbor_cells(c, w, h), 0);
        proof {
            lemma_push_fill_measure(mask, visited, stack.drop_last(), neighbor_cells(c, w, h), 0);
        }
        seq![c] + fill_order(mask, w, h, next.0, next.1)
    }
}

/// Visited flags of a grid of `n` cells once the given regions are filled.
pub open spec fn regions_visited(regions: Seq<MaskComponent>, n: nat) -> Seq<bool> {
    Seq::new(n, |i: int| in_regions(regions, i))
}

/// Whether the cells of region `k` are those the fill takes, in order, when
/// it starts from the region's first cell with the cells of the regions
/// before it visited.
pub open spec fn filled_in_order(regions: Seq<MaskComponent>, k: int, mask: Seq<bool>, w: usize, h: usize) -> bool {
    let start = regions[k].cells@[0];
    regions[k].cells@ == fill_order(
        mask,
        w,
        h,
        regions_visited(regions.take(k), mask.len()).update(start as int, true),
        seq![start],
    )
}

/// Facts about the grid and the regions found so far that a fill relies on.
pub open spec fn fill_context(
    mask: Seq<bool>,
    done: Seq<MaskComponent>,
    start: usize,
    w: usize,
    h: usize,
) -> bool {
    &&& w > 0
    &&& mask.len() == w * h
    &&& mask.len() <= usize::MAX
    &&& start < mask.len()
    &&& mask[start as int]
    &&& forall|k: int| 0 <= k < done.len() ==> #[trigger] region_closed(done[k].cells@, mask, w, h)
    &&& forall|k: int| 0 <= k < done.len() ==> #[trigger] region_cells(done[k].cells@, mask)
}

/// State of a fill: the visited cells are those of the regions found before
/// and those taken (`cells`) or waiting (`stack`); each cell is taken or
/// waits at most once; every waiting cell is a neighbour of a taken one.
#[verifier::opaque]
pub open spec fn fill_state(
    mask: Seq<bool>,
    visited: Seq<bool>,
    done: Seq<MaskComponent>,
    cells: Seq<usize>,
    stack: Seq<usize>,
    start: usize,
    w: usize,
    h: usize,
) -> bool {
    let n = mask.len();
    &&& visited.len() == n
    &&& forall|i: int|
        0 <= i < n ==> (#[trigger] visited[i] <==> (in_regions(done, i) || cells.contains(i as usize)
            || stack.contains(i as usize)))
    &&& forall|i: int| 0 <= i < start && mask[i] ==> #[trigger] visited[i]
    &&& cells.no_duplicates()
    &&& stack.no_duplicates()
    &&& forall|a: int, b: int| 0 <= a < cells.len() && 0 <= b < stack.len() ==> #[trigger] cells[a] != #[trigger] stack[b]
    &&& forall|j: int| 0 <= j < cells.len() ==> #[trigger] cells[j] < n && mask[cells[j] as int] && start <= cells[j]
    &&& forall|j: int| 0 <= j < stack.len() ==> #[trigger] stack[j] < n && mask[stack[j] as int] && start <= stack[j]
    &&& forall|k: int, j: int, j2: int|
        0 <= k < done.len() && 0 <= j < done[k].cells@.len() && 0 <= j2 < cells.len() ==> #[trigger] done[k].cells@[j]
            != #[trigger] cells[j2]
    &&& forall|k: int, j: int, j2: int|
        0 <= k < done.len() && 0 <= j < done[k].cells@.len() && 0 <= j2 < stack.len() ==> #[trigger] done[k].cells@[j]
            != #[trigger] stack[j2]
    &&& cells.len() == 0 ==> stack == seq![start]
    &&& cells.len() > 0 ==> cells[0] == start
    &&& cells.len() > 0 ==> forall|b: int| 0 <= b < stack.len() ==> #[trigger] has_parent(cells, stack[b], w, h)
    &&& region_connected(cells, w, h)
}

/// Whether a cell is a neighbour of one of `cells`.
pub open spec fn has_parent(cells: Seq<usize>, x: usize, w: usize, h: usize) -> bool {
    exists|p: int| 0 <= p < cells.len() && #[trigger] neighbor_cells(cells[p], w, h).contains(x as int)
}

/// Every marked neighbour of the first `limit` taken cells is taken or waits.
pub open spec fn closed_upto(mask: Seq<bool>, cells: Seq<usize>, stack: Seq<usize>, limit: int, w: usize, h: usize) -> bool {
    forall|j: int, u: int|
        0 <= j < limit && 0 <= u < neighbor_cells(cells[j], w, h).len() && mask[#[trigger] neighbor_cells(
            cells[j],
            w,
            h,
        )[u]] ==> cells.contains(neighbor_cells(cells[j], w, h)[u] as usize) || stack.contains(
            neighbor_cells(cells[j], w, h)[u] as usize,
        )
}

/// Every marked one of the first `t` neighbours of cell `c` is taken or waits.
pub open spec fn neighbors_seen(mask: Seq<bool>, cells: Seq<usize>, stack: Seq<usize>, c: usize, t: int, w: usize, h: usize) -> bool {
    forall|u: int|
        0 <= u < t && mask[#[trigger] neighbor_cells(c, w, h)[u]] ==> cells.contains(
            neighbor_cells(c, w, h)[u] as usize,
        ) || stack.contains(neighbor_cells(c, w, h)[u] as usize)
}

/// The fill starts with `start` waiting.
proof fn lemma_fill_begin(mask: Seq<bool>, visited: Seq<bool>, done: Seq<MaskComponent>, start: usize, w: usize, h: usize)
    requires
        fill_context(mask, done, start, w, h),
        visited.len() == mask.len(),
        forall|i: int| 0 <= i < mask.len() ==> (visited[i] <==> in_regions(done, i)),
        !visited[start as int],
        forall|i: int| 0 <= i < start && mask[i] ==> visited[i],
    ensures
        fill_state(mask, visited.update(start as int, true), done, Seq::empty(), seq![start], start, w, h),
{
    reveal(fill_state);
    let stack = seq![start];
    let v = visited.update(start as int, true);
    assert(stack[0] == start);
    assert forall|i: int| 0 <= i < mask.len() implies (#[trigger] v[i] <==> (in_regions(done, i) || Seq::<
        usize,
    >::empty().contains(i as usize) || stack.contains(i as usize))) by {
        vstd::seq_lib::lemma_seq_contains_after_push(Seq::<usize>::empty(), start, i as usize);
        assert(Seq::<usize>::empty().push(start) =~= stack);
    }
    assert forall|k: int, j: int, j2: int|
        0 <= k < done.len() && 0 <= j < done[k].cells@.len() && 0 <= j2 < stack.len() implies #[trigger] done[k].cells@[j]
            != #[trigger] stack[j2] by {
        if done[k].cells@[j] == start {
            assert(in_regions(done, start as int));
        }
    }
    assert(region_connected(Seq::<usize>::empty(), w, h));
}

/// Taking the last waiting cell keeps the fill state, and the taken cells
/// before it stay closed.
#[verifier::rlimit(40)]
proof fn lemma_fill_take(
    mask: Seq<bool>,
    visited: Seq<bool>,
    done: Seq<MaskComponent>,
    cells: Seq<usize>,
    stack: Seq<usize>,
    start: usize,
    w: usize,
    h: usize,
)
    requires
        fill_context(mask, done, start, w, h),
        fill_state(mask, visited, done, cells, stack, start, w, h),
        closed_upto(mask, cells, stack, cells.len() as int, w, h),
        stack.len() > 0,
    ensures
        fill_state(mask, visited, done, cells.push(stack.last()), stack.drop_last(), start, w, h),
        closed_upto(mask, cells.push(stack.last()), stack.drop_last(), cells.len() as int, w, h),
        cells.len() == 0 ==> stack.last() == start,
        stack.last() < mask.len(),
{
    reveal(fill_state);
    let c = stack.last();
    let cells2 = cells.push(c);
    let stack2 = stack.drop_last();
    lemma_contains_pop(stack);
    assert(stack[stack.len() - 1] == c);
    assert forall|a: int| 0 <= a < cells.len() implies #[trigger] cells[a] != c by {
        assert(cells[a] != stack[stack.len() - 1]);
    }
    assert forall|i: int| 0 <= i < mask.len() implies (#[trigger] visited[i] <==> (in_regions(done, i)
        || cells2.contains(i as usize) || stack2.contains(i as usize))) by {
        vstd::seq_lib::lemma_seq_contains_after_push(cells, c, i as usize);
    }
    assert forall|a: int, b: int| 0 <= a < cells2.len() && 0 <= b < stack2.len() implies #[trigger] cells2[a]
        != #[trigger] stack2[b] by {
        if a < cells.len() {
            assert(cells[a] != stack[b]);
        } else {
            assert(stack[b] != stack[stack.len() - 1]);
        }
    }
    assert forall|j: int| 0 < j < cells2.len() implies #[trigger] joined_before(cells2, j, w, h) by {
        if j < cells.len() {
            assert(joined_before(cells, j, w, h));
            let p = choose|p: int| 0 <= p < j && #[trigger] neighbor_cells(cells[p], w, h).contains(cells[j] as int);
            assert(cells2[p] == cells[p]);
            assert(cells2[j] == cells[j]);
            assert(neighbor_cells(cells2[p], w, h).contains(cells2[j] as int));
        } else {
            let b = stack.len() - 1;
            assert(has_parent(cells, stack[b], w, h));
            let p = choose|p: int| 0 <= p < cells.len() && #[trigger] neighbor_cells(cells[p], w, h).contains(stack[b] as int);
            assert(cells2[p] == cells[p]);
            assert(cells2[j] == stack[b]);
            assert(neighbor_cells(cells2[p], w, h).contains(cells2[j] as int));
        }
    }
    assert forall|b: int| 0 <= b < stack2.len() implies #[trigger] has_parent(cells2, stack2[b], w, h) by {
        if cells.len() == 0 {
            assert(stack.len() == 1);
        } else {
            assert(stack2[b] == stack[b]);
            assert(has_parent(cells, stack[b], w, h));
            let p = choose|p: int| 0 <= p < cells.len() && #[trigger] neighbor_cells(cells[p], w, h).contains(stack[b] as int);
            assert(cells2[p] == cells[p]);
            assert(neighbor_cells(cells2[p], w, h).contains(stack2[b] as int));
        }
    }
    assert forall|j: int, u: int|
        0 <= j < cells.len() && 0 <= u < neighbor_cells(cells2[j], w, h).len() && mask[#[trigger] neighbor_cells(
            cells2[j],
            w,
            h,
        )[u]] implies cells2.contains(neighbor_cells(cells2[j], w, h)[u] as usize) || stack2.contains(
        neighbor_cells(cells2[j], w, h)[u] as usize,
    ) by {
        assert(cells2[j] == cells[j]);
        let q = neighbor_cells(cells[j], w, h)[u] as usize;
        vstd::seq_lib::lemma_seq_contains_after_push(cells, c, q);
    }
    assert(cells2.len() > 0 && cells2[0] == start) by {
        if cells.len() == 0 {
            assert(stack =~= seq![start]);
        } else {
            assert(cells2[0] == cells[0]);
        }
    }
    assert(stack[stack.len() - 1] < mask.len());
    assert(cells2.no_duplicates()) by {
        assert forall|a: int, b: int| 0 <= a < cells2.len() && 0 <= b < cells2.len() && a != b implies cells2[a]
            != cells2[b] by {
            if a < cells.len() && b < cells.len() {
                assert(cells2[a] == cells[a] && cells2[b] == cells[b]);
            } else if a < cells.len() {
                assert(cells2[a] == cells[a]);
            } else if b < cells.len() {
                assert(cells2[b] == cells[b]);
            }
        }
    }
    assert(stack2.no_duplicates()) by {
        assert forall|a: int, b: int| 0 <= a < stack2.len() && 0 <= b < stack2.len() && a != b implies stack2[a]
            != stack2[b] by {
            assert(stack2[a] == stack[a] && stack2[b] == stack[b]);
        }
    }
    assert forall|j: int| 0 <= j < cells2.len() implies #[trigger] cells2[j] < mask.len() && mask[cells2[j] as int]
        && start <= cells2[j] by {
        if j < cells.len() {
            assert(cells2[j] == cells[j]);
        } else {
            assert(cells2[j] == stack[stack.len() - 1]);
        }
    }
    assert forall|j: int| 0 <= j < stack2.len() implies #[trigger] stack2[j] < mask.len() && mask[stack2[j] as int]
        && start <= stack2[j] by {
        assert(stack2[j] == stack[j]);
    }
    assert forall|k: int, j: int, j2: int|
        0 <= k < done.len() && 0 <= j < done[k].cells@.len() && 0 <= j2 < cells2.len() implies #[trigger] done[k].cells@[j]
            != #[trigger] cells2[j2] by {
        if j2 < cells.len() {
            assert(cells2[j2] == cells[j2]);
        } else {
            assert(cells2[j2] == stack[stack.len() - 1]);
        }
    }
    assert forall|k: int, j: int, j2: int|
        0 <= k < done.len() && 0 <= j < done[k].cells@.len() && 0 <= j2 < stack2.len() implies #[trigger] done[k].cells@[j]
            != #[trigger] stack2[j2] by {
        assert(stack2[j2] == stack[j2]);
    }
}

/// Pushing an unvisited marked neighbour of the last taken cell keeps the
/// fill state and what was closed or seen.
proof fn lemma_fill_push(
    mask: Seq<bool>,
    visited: Seq<bool>,
    done: Seq<MaskComponent>,
    cells: Seq<usize>,
    stack: Seq<usize>,
    start: usize,
    w: usize,
    h: usize,
    q: int,
    t: int,
)
    requires
        fill_context(mask, done, start, w, h),
        fill_state(mask, visited, done, cells, stack, start, w, h),
        cells.len() > 0,
        0 <= q < mask.len(),
        !visited[q],
        mask[q],
        neighbor_cells(cells.last(), w, h).contains(q),
        closed_upto(mask, cells, stack, cells.len() - 1, w, h),
        neighbors_seen(mask, cells, stack, cells.last(), t, w, h),
    ensures
        fill_state(mask, visited.update(q, true), done, cells, stack.push(q as usize), start, w, h),
        closed_upto(mask, cells, stack.push(q as usize), cells.len() - 1, w, h),
        neighbors_seen(mask, cells, stack.push(q as usize), cells.last(), t, w, h),
        stack.push(q as usize).contains(q as usize),
{
    reveal(fill_state);
    let v = visited.update(q, true);
    let stack2 = stack.push(q as usize);
    assert(stack2[stack.len() as int] == q);
    assert(!in_regions(done, q));
    assert(!cells.contains(q as usize));
    assert(!stack.contains(q as usize));
    assert forall|i: int| 0 <= i < mask.len() implies (#[trigger] v[i] <==> (in_regions(done, i) || cells.contains(
        i as usize,
    ) || stack2.contains(i as usize))) by {
        vstd::seq_lib::lemma_seq_contains_after_push(stack, q as usize, i as usize);
    }
    assert forall|i: int| 0 <= i < start && mask[i] implies #[trigger] v[i] by {
        assert(visited[i]);
    }
    assert(q >= start) by {
        if q < start {
            assert(visited[q]);
        }
    }
    assert forall|a: int, b: int| 0 <= a < cells.len() && 0 <= b < stack2.len() implies #[trigger] cells[a]
        != #[trigger] stack2[b] by {
        if b < stack.len() {
            assert(stack2[b] == stack[b]);
        } else {
            assert(cells.contains(cells[a]));
        }
    }
    assert forall|j: int| 0 <= j < stack2.len() implies #[trigger] stack2[j] < mask.len() && mask[stack2[j] as int]
        && start <= stack2[j] by {
        if j < stack.len() {
            assert(stack2[j] == stack[j]);
        }
    }
    assert forall|k: int, j: int, j2: int|
        0 <= k < done.len() && 0 <= j < done[k].cells@.len() && 0 <= j2 < stack2.len() implies #[trigger] done[k].cells@[j]
            != #[trigger] stack2[j2] by {
        if j2 < stack.len() {
            assert(stack2[j2] == stack[j2]);
        } else if done[k].cells@[j] == q {
            assert(in_regions(done, q));
        }
    }
    assert forall|b: int| 0 <= b < stack2.len() implies #[trigger] has_parent(cells, stack2[b], w, h) by {
        if b < stack.len() {
            assert(stack2[b] == stack[b]);
        } else {
            assert(cells[cells.len() - 1] == cells.last());
            assert(neighbor_cells(cells[cells.len() - 1], w, h).contains(stack2[b] as int));
        }
    }
    assert forall|i: usize| stack.contains(i) implies #[trigger] stack2.contains(i) by {
        vstd::seq_lib::lemma_seq_contains_after_push(stack, q as usize, i);
    }
    assert(stack2.no_duplicates()) by {
        assert forall|a: int, b: int| 0 <= a < stack2.len() && 0 <= b < stack2.len() && a != b implies stack2[a]
            != stack2[b] by {
            if a < stack.len() && b < stack.len() {
                assert(stack2[a] == stack[a] && stack2[b] == stack[b]);
            } else if a < stack.len() {
                assert(stack.contains(stack[a]));
            } else if b < stack.len() {
                assert(stack.contains(stack[b]));
            }
        }
    }
}

/// A marked visited neighbour of the last taken cell is taken or waits: it
/// cannot lie in an earlier region, for that region would then hold the
/// taken cell too.
proof fn lemma_fill_seen(
    mask: Seq<bool>,
    visited: Seq<bool>,
    done: Seq<MaskComponent>,
    cells: Seq<usize>,
    stack: Seq<usize>,
    start: usize,
    w: usize,
    h: usize,
    q: int,
)
    requires
        fill_context(mask, done, start, w, h),
        fill_state(mask, visited, done, cells, stack, start, w, h),
        cells.len() > 0,
        cells.last() < mask.len(),
        0 <= q < mask.len(),
        visited[q],
        mask[q],
        neighbor_cells(cells.last(), w, h).contains(q),
    ensures
        cells.contains(q as usize) || stack.contains(q as usize),
{
    reveal(fill_state);
    let c = cells.last();
    assert(visited[q]);
    if in_regions(done, q) {
        let (k, j) = choose|k: int, j: int|
            0 <= k < done.len() && 0 <= j < done[k].cells@.len() && #[trigger] done[k].cells@[j] == q;
        let t = choose|t: int| 0 <= t < neighbor_cells(c, w, h).len() && neighbor_cells(c, w, h)[t] == q;
        lemma_neighbor_cells(c, w, h, t);
        let back = neighbor_cells(q as usize, w, h);
        let u = choose|u: int| 0 <= u < back.len() && back[u] == c as int;
        assert(region_closed(done[k].cells@, mask, w, h));
        assert(done[k].cells@[j] == q as usize);
        assert(mask[back[u]]) by {
            assert(cells[cells.len() - 1] == c);
        }
        assert(done[k].cells@.contains(c));
        let j2 = choose|j2: int| 0 <= j2 < done[k].cells@.len() && done[k].cells@[j2] == c;
        assert(done[k].cells@[j2] != cells[cells.len() - 1]);
    }
}

/// Taking a cell widens the box to hold it.
proof fn lemma_box_push(cells: Seq<usize>, c: usize, w: usize, min_x: usize, min_y: usize, max_x: usize, max_y: usize)
    requires
        w > 0,
        cells.len() == 0 ==> min_x >= c % w && min_y >= c / w && max_x <= c % w && max_y <= c / w,
        cells.len() > 0 ==> cells_box(cells, w, min_x, min_y, max_x, max_y),
    ensures
        cells_box(
            cells.push(c),
            w,
            if c % w < min_x { c % w } else { min_x },
            if c / w < min_y { c / w } else { min_y },
            if c % w > max_x { c % w } else { max_x },
            if c / w > max_y { c / w } else { max_y },
        ),
{
    let all = cells.push(c);
    let last = cells.len() as int;
    assert(all[last] == c);
    let nx = if c % w < min_x { c % w } else { min_x };
    let ny = if c / w < min_y { c / w } else { min_y };
    let xx = if c % w > max_x { c % w } else { max_x };
    let xy = if c / w > max_y { c / w } else { max_y };
    assert forall|j: int| 0 <= j < all.len() implies nx <= #[trigger] all[j] % w <= xx && ny <= all[j] / w <= xy by {
        if j < last {
            assert(all[j] == cells[j]);
        }
    }
    if cells.len() > 0 {
        let a = choose|j: int| 0 <= j < cells.len() && #[trigger] cells[j] % w == min_x;
        let b = choose|j: int| 0 <= j < cells.len() && #[trigger] cells[j] / w == min_y;
        let d = choose|j: int| 0 <= j < cells.len() && #[trigger] cells[j] % w == max_x;
        let e = choose|j: int| 0 <= j < cells.len() && #[trigger] cells[j] / w == max_y;
        assert(all[a] == cells[a] && all[b] == cells[b] && all[d] == cells[d] && all[e] == cells[e]);
        assert(exists|j: int| 0 <= j < all.len() && #[trigger] all[j] % w == nx) by {
            if c % w < min_x { assert(all[last] % w == nx); } else { assert(all[a] % w == nx); }
        }
        assert(exists|j: int| 0 <= j < all.len() && #[trigger] all[j] / w == ny) by {
            if c / w < min_y { assert(all[last] / w == ny); } else { assert(all[b] / w == ny); }
        }
        assert(exists|j: int| 0 <= j < all.len() && #[trigger] all[j] % w == xx) by {
            if c % w > max_x { assert(all[last] % w == xx); } else { assert(all[d] % w == xx); }
        }
        assert(exists|j: int| 0 <= j < all.len() && #[trigger] all[j] / w == xy) by {
            if c / w > max_y { assert(all[last] / w == xy); } else { assert(all[e] / w == xy); }
        }
    } else {
        assert(all[last] % w == nx && all[last] / w == ny && all[last] % w == xx && all[last] / w == xy);
    }
}

/// Once every neighbour of the last taken cell is seen, all taken cells are
/// closed.
proof fn lemma_close_last(mask: Seq<bool>, cells: Seq<usize>, stack: Seq<usize>, w: usize, h: usize)
    requires
        cells.len() > 0,
        closed_upto(mask, cells, stack, cells.len() - 1, w, h),
        neighbors_seen(mask, cells, stack, cells.last(), neighbor_cells(cells.last(), w, h).len() as int, w, h),
    ensures
        closed_upto(mask, cells, stack, cells.len() as int, w, h),
{
    assert forall|j: int, u: int|
        0 <= j < cells.len() && 0 <= u < neighbor_cells(cells[j], w, h).len() && mask[#[trigger] neighbor_cells(
            cells[j],
            w,
            h,
        )[u]] implies cells.contains(neighbor_cells(cells[j], w, h)[u] as usize) || stack.contains(
        neighbor_cells(cells[j], w, h)[u] as usize,
    ) by {
        if j == cells.len() - 1 {
            assert(cells[j] == cells.last());
            assert(mask[neighbor_cells(cells.last(), w, h)[u]]);
        }
    }
}

/// When no cell waits, the taken cells form a region.
proof fn lemma_fill_end(
    mask: Seq<bool>,
    visited: Seq<bool>,
    done: Seq<MaskComponent>,
    cells: Seq<usize>,
    stack: Seq<usize>,
    start: usize,
    w: usize,
    h: usize,
)
    requires
        fill_context(mask, done, start, w, h),
        fill_state(mask, visited, done, cells, stack, start, w, h),
        closed_upto(mask, cells, stack, cells.len() as int, w, h),
        stack.len() == 0,
    ensures
        cells.len() > 0,
        cells[0] == start,
        region_cells(cells, mask),
        region_closed(cells, mask, w, h),
        region_connected(cells, w, h),
        forall|i: int| 0 <= i < mask.len() ==> (visited[i] <==> (in_regions(done, i) || cells.contains(i as usize))),
        forall|k: int, j: int, j2: int|
            0 <= k < done.len() && 0 <= j < done[k].cells@.len() && 0 <= j2 < cells.len() ==> #[trigger] done[k].cells@[j]
                != #[trigger] cells[j2],
{
    reveal(fill_state);
    assert(cells.len() > 0) by {
        if cells.len() == 0 {
            assert(seq![start].len() == 1);
        }
    }
    assert forall|i: usize| !#[trigger] stack.contains(i) by {}
    assert forall|j: int, u: int|
        0 <= j < cells.len() && 0 <= u < neighbor_cells(cells[j], w, h).len() && mask[#[trigger] neighbor_cells(
            cells[j],
            w,
            h,
        )[u]] implies cells.contains(neighbor_cells(cells[j], w, h)[u] as usize) by {
        assert(!stack.contains(neighbor_cells(cells[j], w, h)[u] as usize));
    }
    assert forall|i: int| 0 <= i < mask.len() implies (visited[i] <==> (in_regions(done, i) || cells.contains(
        i as usize,
    ))) by {
        assert(visited[i] <==> (in_regions(done, i) || cells.contains(i as usize) || stack.contains(i as usize)));
        assert(!stack.contains(i as usize));
    }
}

/// Fills the region around `start`, a marked cell that no earlier region
/// holds, marking its cells visited. The fill keeps a stack of cells to
/// visit and pushes the unvisited marked neighbours of each cell it takes,
/// in the order left, right, up, down.
fn fill_region(
    mask: &Vec<bool>,
    visited: &mut Vec<bool>,
    Ghost(done): Ghost<Seq<MaskComponent>>,
    start: usize,
    width: usize,
    height: usize,
) -> (region: MaskComponent)
    requires
        fill_context(mask@, done, start, width, height),
        old(visited)@.len() == mask@.len(),
        forall|i: int| 0 <= i < mask@.len() ==> (old(visited)@[i] <==> in_regions(done, i)),
        !old(visited)@[start as int],
        forall|i: int| 0 <= i < start && mask@[i] ==> old(visited)@[i],
    ensures
        is_region(region, mask@, width, height),
        region.cells@[0] == start,
        region.cells@ == fill_order(mask@, width, height, old(visited)@.update(start as int, true), seq![start]),
        final(visited)@.len() == mask@.len(),
        forall|i: int|
            0 <= i < mask@.len() ==> (final(visited)@[i] <==> (in_regions(done, i) || region.cells@.contains(
                i as usize,
            ))),
        forall|k: int, j: int, j2: int|
            0 <= k < done.len() && 0 <= j < done[k].cells@.len() && 0 <= j2 < region.cells@.len()
                ==> #[trigger] done[k].cells@[j] != #[trigger] region.cells@[j2],
{
    let mut cells: Vec<usize> = Vec::new();
    let mut stack: Vec<usize> = Vec::new();
    let ghost first_visited = old(visited)@.update(start as int, true);
    proof {
        lemma_fill_begin(mask@, visited@, done, start, width, height);
    }
    stack.push(start);
    visited.set(start, true);
    assert(stack@ =~= seq![start]);
    let mut min_x: usize = width;
    let mut min_y: usize = height;
    let mut max_x: usize = 0;
    let mut max_y: usize = 0;
    while stack.len() > 0
        invariant
            fill_context(mask@, done, start, width, height),
            fill_state(mask@, visited@, done, cells@, stack@, start, width, height),
            closed_upto(mask@, cells@, stack@, cells@.len() as int, width, height),
            visited@.len() == mask@.len(),
            cells@ + fill_order(mask@, width, height, visited@, stack@) == fill_order(
                mask@,
                width,
                height,
                first_visited,
                seq![start],
            ),
            cells@.len() == 0 ==> min_x == width && min_y == height && max_x == 0 && max_y == 0,
            cells@.len() > 0 ==> cells_box(cells@, width, min_x, min_y, max_x, max_y),
        decreases 2 * unvisited(visited@) + stack@.len(),
    {
        let ghost before_visited = visited@;
        let ghost before_stack = stack@;
        let ghost before_cells = cells@;
        proof {
            lemma_fill_take(mask@, visited@, done, cells@, stack@, start, width, height);
        }
        let c = stack.pop().unwrap();
        assert(c == before_stack.last());
        assert(stack@ =~= before_stack.drop_last());
        let ghost after_pop = stack@;
        proof {
            lemma_cell_coords(c, width, height);
        }
        let x = c % width;
        let y = c / width;
        let ghost old_box = (min_x, min_y, max_x, max_y);
        cells.push(c);
        min_x = if x < min_x { x } else { min_x };
        min_y = if y < min_y { y } else { min_y };
        max_x = if x > max_x { x } else { max_x };
        max_y = if y > max_y { y } else { max_y };
        proof {
            lemma_box_push(before_cells, c, width, old_box.0, old_box.1, old_box.2, old_box.3);
        }
        let found = neighbors(x, y, width, height);
        let mut t: usize = 0;
        while t < found.len()
            invariant
                fill_context(mask@, done, start, width, height),
                fill_state(mask@, visited@, done, cells@, stack@, start, width, height),
                cells@.len() > 0,
                cells@.last() == c,
                c < mask@.len(),
                x == c % width,
                y == c / width,
                x < width,
                y < height,
                found@ == spec_neighbors(x, y, width, height),
                t <= found@.len(),
                closed_upto(mask@, cells@, stack@, cells@.len() - 1, width, height),
                neighbors_seen(mask@, cells@, stack@, c, t as int, width, height),
                cells_box(cells@, width, min_x, min_y, max_x, max_y),
                visited@.len() == mask@.len(),
                2 * unvisited(visited@) + stack@.len() < 2 * unvisited(before_visited) + before_stack.len(),
                cells@ == before_cells.push(c),
                push_fill_neighbors(mask@, visited@, stack@, neighbor_cells(c, width, height), t as int)
                    == push_fill_neighbors(mask@, before_visited, after_pop, neighbor_cells(c, width, height), 0),
            decreases found@.len() - t,
        {
            let (nx, ny) = found[t];
            proof {
                lemma_neighbor_cells(c, width, height, t as int);
                lemma_cell_at(nx as int, ny as int, width, height);
            }
            let next = ny * width + nx;
            let ghost q = neighbor_cells(c, width, height)[t as int];
            assert(next == q);
            assert(neighbor_cells(c, width, height).contains(q));
            if !visited[next] && mask[next] {
                proof {
                    lemma_mark_visited(visited@, next as int);
                    lemma_fill_push(mask@, visited@, done, cells@, stack@, start, width, height, q, t as int);
                }
                visited.set(next, true);
                stack.push(next);
            } else {
                proof {
                    if mask@[next as int] {
                        lemma_fill_seen(mask@, visited@, done, cells@, stack@, start, width, height, q);
                    }
                }
            }
            t = t + 1;
        }
        proof {
            assert(found@.len() == neighbor_cells(c, width, height).len());
            lemma_close_last(mask@, cells@, stack@, width, height);
            assert(before_cells + fill_order(mask@, width, height, before_visited, before_stack) == fill_order(
                mask@,
                width,
                height,
                first_visited,
                seq![start],
            ));
            assert(fill_order(mask@, width, height, before_visited, before_stack) == seq![c] + fill_order(
                mask@,
                width,
                height,
                visited@,
                stack@,
            ));
            assert(cells@ + fill_order(mask@, width, height, visited@, stack@) =~= before_cells + (seq![c]
                + fill_order(mask@, width, height, visited@, stack@)));
        }
    }
    proof {
        lemma_fill_end(mask@, visited@, done, cells@, stack@, start, width, height);
        assert(cells@ + fill_order(mask@, width, height, visited@, stack@) =~= cells@);
    }
    MaskComponent { cells, min_x, min_y, max_x, max_y }
}

/// A cell is in the regions with one more region appended when it is in
/// the earlier regions or in the new one.
proof fn lemma_in_regions_push(regions: Seq<MaskComponent>, region: MaskComponent, i: int)
    requires
        0 <= i <= usize::MAX,
    ensures
        in_regions(regions.push(region), i) <==> (in_regions(regions, i) || region.cells@.contains(i as usize)),
{
    let all = regions.push(region);
    if in_regions(regions, i) {
        let (k, j) = choose|k: int, j: int|
            0 <= k < regions.len() && 0 <= j < regions[k].cells@.len() && #[trigger] regions[k].cells@[j] == i;
        assert(all[k] == regions[k]);
        assert(all[k].cells@[j] == i);
    }
    if region.cells@.contains(i as usize) {
        let j = choose|j: int| 0 <= j < region.cells@.len() && region.cells@[j] == i as usize;
        assert(all[regions.len() as int] == region);
        assert(all[regions.len() as int].cells@[j] == i);
    }
    if in_regions(all, i) {
        let (k, j) = choose|k: int, j: int| 0 <= k < all.len() && 0 <= j < all[k].cells@.len() && #[trigger] all[k].cells@[j] == i;
        if k < regions.len() {
            assert(all[k] == regions[k]);
            assert(regions[k].cells@[j] == i);
        } else {
            assert(all[k] == region);
            assert(region.cells@[j] == i as usize);
        }
    }
}

/// Splits the marked cells of a `width` by `height` row-major mask into
/// regions of cells joined through left, right, upper and lower neighbours.
/// Regions come in the order of their first cell in the grid, each filled
/// from that cell.
pub fn mask_components(mask: &Vec<bool>, width: usize, height: usize) -> (regions: Vec<MaskComponent>)
    requires
        mask@.len() == width * height,
    ensures
        forall|k: int| 0 <= k < regions@.len() ==> #[trigger] is_region(regions@[k], mask@, width, height),
        regions_disjoint(regions@),
        regions_ordered(regions@),
        forall|i: int| 0 <= i < mask@.len() && mask@[i] ==> in_regions(regions@, i),
        forall|k: int| 0 <= k < regions@.len() ==> #[trigger] filled_in_order(regions@, k, mask@, width, height),
{
    let mut regions: Vec<MaskComponent> = Vec::new();
    let n = mask.len();
    if width == 0 {
        return regions;
    }
    let mut visited: Vec<bool> = Vec::new();
    while visited.len() < n
        invariant
            visited@.len() <= n,
            n == mask@.len(),
            forall|j: int| 0 <= j < visited@.len() ==> !visited@[j],
        decreases n - visited@.len(),
    {
        visited.push(false);
    }
    let mut start: usize = 0;
    while start < n
        invariant
            width > 0,
            n == mask@.len(),
            n == width * height,
            start <= n,
            visited@.len() == n,
            forall|i: int| 0 <= i < n ==> (visited@[i] <==> in_regions(regions@, i)),
            forall|i: int| 0 <= i < start && mask@[i] ==> visited@[i],
            forall|k: int| 0 <= k < regions@.len() ==> #[trigger] is_region(regions@[k], mask@, width, height),
            regions_disjoint(regions@),
            regions_ordered(regions@),
            forall|k: int| 0 <= k < regions@.len() ==> #[trigger] regions@[k].cells@[0] < start,
            forall|k: int| 0 <= k < regions@.len() ==> #[trigger] filled_in_order(regions@, k, mask@, width, height),
        decreases n - start,
    {
        if !visited[start] && mask[start] {
            let ghost done = regions@;
            assert forall|k: int| 0 <= k < done.len() implies #[trigger] region_closed(done[k].cells@, mask@, width, height) by {
                assert(is_region(done[k], mask@, width, height));
            }
            assert forall|k: int| 0 <= k < done.len() implies #[trigger] region_cells(done[k].cells@, mask@) by {
                assert(is_region(done[k], mask@, width, height));
            }
            let ghost visited_before = visited@;
            assert(visited_before =~= regions_visited(done, n as nat));
            let region = fill_region(mask, &mut visited, Ghost(done), start, width, height);
            regions.push(region);
            proof {
                let all = regions@;
                assert(all =~= done.push(region));
                assert forall|k: int| 0 <= k < all.len() implies #[trigger] filled_in_order(all, k, mask@, width, height) by {
                    if k < done.len() {
                        assert(all[k] == done[k]);
                        assert(all.take(k) =~= done.take(k));
                        assert(filled_in_order(done, k, mask@, width, height));
                    } else {
                        assert(all[k] == region);
                        assert(all.take(k) =~= done);
                    }
                }
            }
            proof {
                let all = regions@;
                assert(all =~= done.push(region));
                assert forall|i: int| 0 <= i < n implies (visited@[i] <==> in_regions(all, i)) by {
                    lemma_in_regions_push(done, region, i);
                }
                assert forall|k: int| 0 <= k < all.len() implies #[trigger] is_region(all[k], mask@, width, height) by {
                    if k < done.len() {
                        assert(all[k] == done[k]);
                    }
                }
                assert forall|k1: int, k2: int, j1: int, j2: int|
                    0 <= k1 < all.len() && 0 <= k2 < all.len() && k1 != k2 && 0 <= j1 < all[k1].cells@.len() && 0 <= j2
                        < all[k2].cells@.len() implies #[trigger] all[k1].cells@[j1] != #[trigger] all[k2].cells@[j2] by {
                    if k1 < done.len() && k2 < done.len() {
                        assert(all[k1] == done[k1] && all[k2] == done[k2]);
                        assert(done[k1].cells@[j1] != done[k2].cells@[j2]);
                    } else if k1 < done.len() {
                        assert(all[k1] == done[k1] && all[k2] == region);
                        assert(done[k1].cells@[j1] != region.cells@[j2]);
                    } else {
                        assert(all[k2] == done[k2] && all[k1] == region);
                        assert(done[k2].cells@[j2] != region.cells@[j1]);
                    }
                }
                assert forall|k1: int, k2: int| 0 <= k1 < k2 < all.len() implies #[trigger] all[k1].cells@[0]
                    < #[trigger] all[k2].cells@[0] by {
                    assert(all[k1] == done[k1]);
                    assert(done[k1].cells@[0] < start);
                    if k2 < done.len() {
                        assert(all[k2] == done[k2]);
                    }
                }
                assert forall|k: int| 0 <= k < all.len() implies #[trigger] all[k].cells@[0] < start + 1 by {
                    if k < done.len() {
                        assert(all[k] == done[k]);
                        assert(done[k].cells@[0] < start);
                    }
                }
                assert(region.cells@.contains(start)) by {
                    assert(region.cells@[0] == start);
                }
            }
        }
        start = start + 1;
    }
    proof {
        assert forall|i: int| 0 <= i < mask@.len() && mask@[i] implies in_regions(regions@, i) by {
            assert(visited@[i]);
        }
    }
    regions
}

/// Smallest number of columns and of rows of a region kept as a text box.
pub const MIN_COMPONENT_SIDE: usize = 3;

/// Whether a region is large enough to become a text box: it has at least
/// `min_area` cells and spans at least `MIN_COMPONENT_SIDE` columns and
/// rows.
pub open spec fn spec_large_enough(region: MaskComponent, min_area: usize) -> bool {
    &&& region.cells@.len() >= min_area
    &&& region.max_x + 1 - region.min_x >= MIN_COMPONENT_SIDE
    &&& region.max_y + 1 - region.min_y >= MIN_COMPONENT_SIDE
}

/// Checks whether a region is large enough to become a text box.
pub fn region_large_enough(region: &MaskComponent, min_area: usize) -> (keep: bool)
    requires
        region.min_x <= region.max_x < usize::MAX,
        region.min_y <= region.max_y < usize::MAX,
    ensures
        keep == spec_large_enough(*region, min_area),
{
    let columns = region.max_x + 1 - region.min_x;
    let rows = region.max_y + 1 - region.min_y;
    !(region.cells.len() < min_area || columns < MIN_COMPONENT_SIDE || rows < MIN_COMPONENT_SIDE)
}

/// The box of a region lies inside the grid and is never empty.
pub proof fn lemma_region_box_in_grid(region: MaskComponent, mask: Seq<bool>, w: usize, h: usize)
    requires
        w > 0,
        mask.len() == w * h,
        is_region(region, mask, w, h),
    ensures
        region.min_x <= region.max_x < w,
        region.min_y <= region.max_y < h,
{
    let cells = region.cells@;
    assert(cells[0] < mask.len());
    lemma_cell_coords(cells[0], w, h);
    let d = choose|j: int| 0 <= j < cells.len() && #[trigger] cells[j] % w == region.max_x;
    let e = choose|j: int| 0 <= j < cells.len() && #[trigger] cells[j] / w == region.max_y;
    assert(cells[d] < mask.len());
    assert(cells[e] < mask.len());
    lemma_cell_coords(cells[d], w, h);
    lemma_cell_coords(cells[e], w, h);
}

} // verus!
