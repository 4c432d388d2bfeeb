//! Laws of the layout algorithm, stated and proved once for all inputs.

use vstd::prelude::*;
use crate::grid::{child_id, entry_reflowed, has_id, reflow_rel, Child, Grid};

verus! {

/// The partition is uniform: under a configured grid, every cell has the
/// width `w / cols` and the height `h / rows`, the same for all cells.
pub proof fn lemma_uniform_partition(g: Grid, r1: int, c1: int, r2: int, c2: int)
    requires
        g.wf(),
        g.configured(),
        g.in_range(r1, c1),
        g.in_range(r2, c2),
    ensures
        g.cell_w() == g.w as int / g.cols as int,
        g.cell_h() == g.h as int / g.rows as int,
        g.placed_rect(r1, c1, 1, 1).w == g.placed_rect(r2, c2, 1, 1).w,
        g.placed_rect(r1, c1, 1, 1).h == g.placed_rect(r2, c2, 1, 1).h,
        g.placed_rect(r1, c1, 1, 1).w == g.cell_w(),
        g.placed_rect(r1, c1, 1, 1).h == g.cell_h(),
{
    crate::geom::lemma_cell_offset_in_width(g.w as int, g.cols as int, c1);
    crate::geom::lemma_cell_offset_in_width(g.h as int, g.rows as int, r1);
}

/// Two grids carry the same observable layout: the same identity, bounds,
/// partition and diagnostic flag, and entry for entry the same key and the
/// same child, nested grids compared the same way.
pub open spec fn same_layout(b: Grid, c: Grid) -> bool
    decreases b,
{
    &&& c.id == b.id
    &&& c.x == b.x && c.y == b.y && c.w == b.w && c.h == b.h
    &&& c.rows == b.rows && c.cols == b.cols
    &&& c.debug_cells == b.debug_cells
    &&& c.placements@.len() == b.placements@.len()
    &&& forall|i: int| 0 <= i < b.placements@.len() ==> {
        let q = #[trigger] b.placements@[i];
        let t = c.placements@[i];
        &&& t.row == q.row && t.col == q.col
        &&& t.row_span == q.row_span && t.col_span == q.col_span
        &&& match q.child {
            Child::Widget(_) => t.child == q.child,
            Child::Grid(g) => t.child matches Child::Grid(g2) && same_layout(*g, *g2),
        }
    }
}

/// Every grid carries its own layout.
pub proof fn lemma_same_layout_reflexive(g: Grid)
    ensures
        same_layout(g, g),
    decreases g,
{
    assert forall|i: int| 0 <= i < g.placements@.len() implies {
        let q = #[trigger] g.placements@[i];
        match q.child {
            Child::Widget(_) => true,
            Child::Grid(inner) => q.child matches Child::Grid(g2) && same_layout(*inner, *g2),
        }
    } by {
        match g.placements@[i].child {
            Child::Widget(_) => {},
            Child::Grid(inner) => {
                lemma_same_layout_reflexive(*inner);
            },
        }
    }
}

/// Resizing is idempotent: relaying a grid out twice for the same bounds
/// leaves, after the second pass, exactly the layout the first pass gave —
/// every widget keeps the bounds the first pass computed, nested grids
/// recursively.
pub proof fn lemma_resize_idempotent(a: Grid, b: Grid, c: Grid, x: int, y: int, w: int, h: int)
    requires
        reflow_rel(a, b, x, y, w, h),
        reflow_rel(b, c, x, y, w, h),
    ensures
        same_layout(b, c),
    decreases a,
{
    assert forall|i: int| 0 <= i < b.placements@.len() implies {
        let q = #[trigger] b.placements@[i];
        let t = c.placements@[i];
        &&& t.row == q.row && t.col == q.col
        &&& t.row_span == q.row_span && t.col_span == q.col_span
        &&& match q.child {
            Child::Widget(_) => t.child == q.child,
            Child::Grid(g) => t.child matches Child::Grid(g2) && same_layout(*g, *g2),
        }
    } by {
        let p = a.placements@[i];
        let q = b.placements@[i];
        let t = c.placements@[i];
        assert(entry_reflowed(p, q, a.rows as int, a.cols as int, x, y, w, h));
        assert(entry_reflowed(q, t, b.rows as int, b.cols as int, x, y, w, h));
        if 0 <= p.row < a.rows as int && 0 <= p.col < a.cols as int {
            match p.child {
                Child::Widget(_) => {},
                Child::Grid(g) => {
                    let g2 = q.child->Grid_0;
                    let g3 = t.child->Grid_0;
                    let cw = w / a.cols as int;
                    let ch = h / a.rows as int;
                    let r = crate::geom::Rect {
                        x: (x + p.col * cw) as i32,
                        y: (y + p.row * ch) as i32,
                        w: (cw * p.row_span) as i32,
                        h: (ch * p.col_span) as i32,
                    };
                    lemma_resize_idempotent(
                        *g,
                        *g2,
                        *g3,
                        r.x as int,
                        r.y as int,
                        r.w as int,
                        r.h as int,
                    );
                },
            }
        } else {
            assert(q == p && t == q);
            match q.child {
                Child::Widget(_) => {},
                Child::Grid(g) => {
                    lemma_same_layout_reflexive(*g);
                },
            }
        }
    }
}

/// A relayout touches no identity it does not hold: a widget or nested grid
/// that is absent from the registry before a resize is absent after it. In
/// particular, once `remove` has taken a widget out, no later resize touches
/// that widget again.
pub proof fn lemma_resize_skips_removed(a: Grid, b: Grid, x: int, y: int, w: int, h: int, id: u64)
    requires
        reflow_rel(a, b, x, y, w, h),
        !has_id(a.placements@, id),
    ensures
        !has_id(b.placements@, id),
{
    assert forall|i: int| 0 <= i < b.placements@.len() implies child_id(
        (#[trigger] b.placements@[i]).child,
    ) != id by {
        let p = a.placements@[i];
        let q = b.placements@[i];
        assert(entry_reflowed(p, q, a.rows as int, a.cols as int, x, y, w, h));
        assert(child_id(p.child) != id);
        if 0 <= p.row < a.rows as int && 0 <= p.col < a.cols as int {
            match p.child {
                Child::Widget(_) => {},
                Child::Grid(g) => {
                    let g2 = q.child->Grid_0;
                    assert(g2.id == g.id);
                },
            }
        }
    }
}

} // verus!
