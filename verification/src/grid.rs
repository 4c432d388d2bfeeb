//! The grid layout manager.

use vstd::prelude::*;
use vstd::pervasive::VecAdditionalExecFns;

verus! {

/// A grid that partitions its bounds into `rows` x `cols` uniform cells.
///
/// `id` is the identity of the container widget that the host supplied for
/// this grid; a nested grid is matched by it, the way any widget is matched
/// by its own identity.
pub struct Grid {
    pub id: u64,
    pub x: i32,
    pub y: i32,
    pub w: i32,
    pub h: i32,
    pub rows: i32,
    pub cols: i32,
    pub placements: Vec<Placement>,
    pub debug_cells: bool,
}

/// One registry entry: an anchor cell, a span along each axis, and the child
/// placed there.
pub struct Placement {
    pub row: i32,
    pub col: i32,
    pub row_span: i32,
    pub col_span: i32,
    pub child: Child,
}

/// A placed child: either a plain widget handle or a nested grid.
pub enum Child {
    Widget(crate::geom::Widget),
    Grid(Box<Grid>),
}

/// The registry key of a placement: anchor cell and spans.
pub open spec fn key_of(p: Placement) -> (int, int, int, int) {
    (p.row as int, p.col as int, p.row_span as int, p.col_span as int)
}

/// The identity of a placed child: a widget's own identity, or for a nested
/// grid the identity of its container widget.
pub open spec fn child_id(c: Child) -> u64 {
    match c {
        Child::Widget(wd) => wd.id,
        Child::Grid(g) => g.id,
    }
}

/// Whether some entry of the registry carries the given key.
pub open spec fn has_key(s: Seq<Placement>, k: (int, int, int, int)) -> bool {
    exists|i: int| 0 <= i < s.len() && key_of(s[i]) == k
}

/// Whether some entry of the registry carries a child with the given identity.
pub open spec fn has_id(s: Seq<Placement>, id: u64) -> bool {
    exists|i: int| 0 <= i < s.len() && child_id((#[trigger] s[i]).child) == id
}

impl Child {
    /// Spans are at least one cell; a nested grid is itself well formed.
    pub open spec fn wf(self) -> bool
        decreases self,
    {
        match self {
            Child::Widget(_) => true,
            Child::Grid(g) => g.wf(),
        }
    }
}

impl Placement {
    /// Spans are at least one cell and the child is well formed.
    pub open spec fn wf(self) -> bool
        decreases self,
    {
        &&& self.row_span >= 1
        &&& self.col_span >= 1
        &&& self.child.wf()
    }
}

impl Grid {
    /// A grid is configured once it has at least one row and one column.
    pub open spec fn configured(self) -> bool {
        self.rows > 0 && self.cols > 0
    }

    /// Whether an anchor cell lies inside the current partition.
    pub open spec fn in_range(self, row: int, col: int) -> bool {
        0 <= row < self.rows && 0 <= col < self.cols
    }

    /// The uniform width of one column: the container width divided by the
    /// column count, in integer pixels.
    pub open spec fn cell_w(self) -> int {
        self.w as int / self.cols as int
    }

    /// The uniform height of one row.
    pub open spec fn cell_h(self) -> int {
        self.h as int / self.rows as int
    }

    /// The left pixel edge of the column `col`.
    pub open spec fn cell_x(self, col: int) -> int {
        self.x as int + col * self.cell_w()
    }

    /// The top pixel edge of the row `row`.
    pub open spec fn cell_y(self, row: int) -> int {
        self.y as int + row * self.cell_h()
    }

    /// The pixel rectangle a placement is entitled to: anchored at its cell's
    /// top-left corner, `row_span` columns wide and `col_span` rows tall.
    /// The span-to-axis convention follows the placement methods: `row_span`
    /// multiplies the cell width, `col_span` the cell height.
    pub open spec fn placed_rect(self, row: int, col: int, row_span: int, col_span: int) -> crate::geom::Rect {
        crate::geom::Rect {
            x: self.cell_x(col) as i32,
            y: self.cell_y(row) as i32,
            w: (self.cell_w() * row_span) as i32,
            h: (self.cell_h() * col_span) as i32,
        }
    }

    /// Nonnegative partition counts, sizes that fit the signed pixel plane,
    /// spans of at least one cell, registry keys that occur only once, and
    /// nested grids well formed in turn.
    pub open spec fn wf(self) -> bool
        decreases self,
    {
        &&& self.rows >= 0
        &&& self.cols >= 0
        &&& self.w >= 0
        &&& self.h >= 0
        &&& self.x + self.w <= i32::MAX
        &&& self.y + self.h <= i32::MAX
        &&& forall|i: int| 0 <= i < self.placements@.len() ==> (#[trigger] self.placements@[i]).wf()
        &&& forall|i: int, j: int|
            0 <= i < self.placements@.len() && 0 <= j < self.placements@.len() && i != j
                ==> key_of(#[trigger] self.placements@[i]) != key_of(#[trigger] self.placements@[j])
    }

    /// Whether a relayout to the bounds `(x, y, w, h)` stays within `i32`:
    /// every in-range placement's spanned size fits, and every in-range
    /// nested grid fits its own cell rectangle in turn. Out-of-range
    /// placements are skipped by relayout and need nothing.
    pub open spec fn fits(self, x: int, y: int, w: int, h: int) -> bool
        decreases self,
    {
        self.configured() ==> {
            let cw = w / self.cols as int;
            let ch = h / self.rows as int;
            forall|i: int| 0 <= i < self.placements@.len() ==> {
                let p = #[trigger] self.placements@[i];
                self.in_range(p.row as int, p.col as int) ==> {
                    &&& cw * p.row_span <= i32::MAX
                    &&& ch * p.col_span <= i32::MAX
                    &&& (p.child matches Child::Grid(g) ==> {
                        &&& x + p.col * cw + cw * p.row_span <= i32::MAX
                        &&& y + p.row * ch + ch * p.col_span <= i32::MAX
                        &&& g.fits(x + p.col * cw, y + p.row * ch, cw * p.row_span, ch * p.col_span)
                    })
                }
            }
        }
    }

    /// Every in-range placement's recorded geometry agrees with the grid's
    /// current partition, and every in-range nested grid occupies its cell
    /// rectangle and is laid out in turn: no placement is stale.
    pub open spec fn laid_out(self) -> bool
        decreases self,
    {
        forall|i: int| 0 <= i < self.placements@.len() ==> {
            let p = #[trigger] self.placements@[i];
            self.in_range(p.row as int, p.col as int) ==> {
                let r = self.placed_rect(p.row as int, p.col as int, p.row_span as int, p.col_span as int);
                match p.child {
                    Child::Widget(wd) => wd.rect == r,
                    Child::Grid(g) => {
                        &&& g.x == r.x
                        &&& g.y == r.y
                        &&& g.w == r.w
                        &&& g.h == r.h
                        &&& g.laid_out()
                    },
                }
            }
        }
    }
}

impl Grid {
    /// Creates an unconfigured grid at the given bounds, with an empty
    /// registry.
    pub fn new(id: u64, x: i32, y: i32, w: i32, h: i32) -> (g: Grid)
        requires
            0 <= w,
            0 <= h,
            x + w <= i32::MAX,
            y + h <= i32::MAX,
        ensures
            g.id == id,
            g.x == x && g.y == y && g.w == w && g.h == h,
            g.rows == 0 && g.cols == 0,
            g.placements@.len() == 0,
            !g.debug_cells,
            g.wf(),
            !g.configured(),
    {
        Grid {
            id,
            x,
            y,
            w,
            h,
            rows: 0,
            cols: 0,
            placements: Vec::new(),
            debug_cells: false,
        }
    }

    /// Creates an unconfigured grid that fills the given parent bounds.
    pub fn default_fill(id: u64, parent: &crate::geom::Rect) -> (g: Grid)
        requires
            0 <= parent.w,
            0 <= parent.h,
            parent.x + parent.w <= i32::MAX,
            parent.y + parent.h <= i32::MAX,
        ensures
            g.id == id,
            g.x == parent.x && g.y == parent.y && g.w == parent.w && g.h == parent.h,
            g.rows == 0 && g.cols == 0,
            g.placements@.len() == 0,
            !g.debug_cells,
            g.wf(),
    {
        Grid::new(id, parent.x, parent.y, parent.w, parent.h)
    }

    /// Sets the partition to `rows` x `cols`. Cell sizes derive uniformly
    /// from the current bounds. Nonpositive counts are rejected: the grid is
    /// left unchanged and `false` comes back. Placements already registered
    /// are kept and repositioned only by the next [`Grid::resize`].
    pub fn set_layout(&mut self, rows: i32, cols: i32) -> (accepted: bool)
        requires
            old(self).wf(),
        ensures
            accepted == (rows > 0 && cols > 0),
            accepted ==> *final(self) == (Grid { rows, cols, ..*old(self) }),
            !accepted ==> *final(self) == *old(self),
            final(self).wf(),
    {
        if rows > 0 && cols > 0 {
            self.rows = rows;
            self.cols = cols;
            true
        } else {
            false
        }
    }

    /// Toggles the diagnostic flag that asks the host to outline each cell
    /// and label it with its row and column. Purely visual; the layout is
    /// unaffected.
    pub fn debug(&mut self, flag: bool)
        ensures
            *final(self) == (Grid { debug_cells: flag, ..*old(self) }),
    {
        self.debug_cells = flag;
    }

    /// The pixel rectangle of the cell `(row, col)`: `Some` exactly when the
    /// grid is configured and the cell is in range, and then the uniform cell
    /// rectangle at that position.
    pub fn find_cell(&self, row: i32, col: i32) -> (r: Option<crate::geom::Rect>)
        requires
            self.wf(),
        ensures
            r is Some <==> self.configured() && self.in_range(row as int, col as int),
            r matches Some(rc) ==> {
                &&& rc.x == self.cell_x(col as int)
                &&& rc.y == self.cell_y(row as int)
                &&& rc.w == self.cell_w()
                &&& rc.h == self.cell_h()
            },
    {
        if self.rows > 0 && self.cols > 0 && 0 <= row && row < self.rows && 0 <= col && col < self.cols {
            proof {
                crate::geom::lemma_cell_offset_in_width(self.w as int, self.cols as int, col as int);
                crate::geom::lemma_cell_offset_in_width(self.h as int, self.rows as int, row as int);
            }
            let cw = self.w / self.cols;
            let ch = self.h / self.rows;
            Some(crate::geom::Rect { x: self.x + col * cw, y: self.y + row * ch, w: cw, h: ch })
        } else {
            None
        }
    }
}

/// How registering a placement rewrites the registry: the entry that already
/// carries the same key is replaced, and otherwise the placement is appended.
pub open spec fn upsert_rel(s0: Seq<Placement>, s1: Seq<Placement>, np: Placement) -> bool {
    if has_key(s0, key_of(np)) {
        exists|i: int| 0 <= i < s0.len() && key_of(#[trigger] s0[i]) == key_of(np) && s1 == s0.update(i, np)
    } else {
        s1 == s0.push(np)
    }
}

impl Grid {
    /// Places a widget at the anchor cell `(row, col)` with the given spans.
    /// The widget's bounds become the cell's rectangle, `row_span` cells wide
    /// and `col_span` cells tall, and the placement is registered under the
    /// key `(row, col, row_span, col_span)`, replacing any placement already
    /// registered under that exact key. When the grid is unconfigured or the
    /// anchor is out of range, nothing changes and `false` comes back.
    pub fn insert_ext(&mut self, widget: &mut crate::geom::Widget, row: i32, col: i32, row_span: i32, col_span: i32) -> (placed: bool)
        requires
            old(self).wf(),
            row_span >= 1,
            col_span >= 1,
            old(self).in_range(row as int, col as int) ==> {
                &&& old(self).cell_w() * row_span <= i32::MAX
                &&& old(self).cell_h() * col_span <= i32::MAX
            },
        ensures
            placed <==> old(self).configured() && old(self).in_range(row as int, col as int),
            final(self).wf(),
            !placed ==> *final(self) == *old(self) && *final(widget) == *old(widget),
            placed ==> {
                &&& *final(widget) == (crate::geom::Widget {
                    id: old(widget).id,
                    rect: old(self).placed_rect(row as int, col as int, row_span as int, col_span as int),
                })
                &&& upsert_rel(
                    old(self).placements@,
                    final(self).placements@,
                    Placement { row, col, row_span, col_span, child: Child::Widget(*final(widget)) },
                )
                &&& *final(self) == (Grid { placements: final(self).placements, ..*old(self) })
            },
    {
        let rect = match self.find_cell(row, col) {
            Some(rc) => rc,
            None => {
                return false;
            },
        };
        proof {
            crate::geom::lemma_cell_offset_in_width(self.w as int, self.cols as int, 0);
            crate::geom::lemma_cell_offset_in_width(self.h as int, self.rows as int, 0);
            vstd::arithmetic::mul::lemma_mul_inequality(1, row_span as int, self.cell_w());
            vstd::arithmetic::mul::lemma_mul_inequality(1, col_span as int, self.cell_h());
            vstd::arithmetic::mul::lemma_mul_is_commutative(row_span as int, self.cell_w());
            vstd::arithmetic::mul::lemma_mul_is_commutative(col_span as int, self.cell_h());
        }
        widget.rect = crate::geom::Rect { x: rect.x, y: rect.y, w: rect.w * row_span, h: rect.h * col_span };
        let entry = Placement { row, col, row_span, col_span, child: Child::Widget(*widget) };
        self.register(entry);
        true
    }

    /// Registers a placement, replacing the entry with the same key if one
    /// exists and appending otherwise. Key uniqueness is preserved.
    fn register(&mut self, entry: Placement)
        requires
            old(self).wf(),
            entry.wf(),
        ensures
            final(self).wf(),
            upsert_rel(old(self).placements@, final(self).placements@, entry),
            *final(self) == (Grid { placements: final(self).placements, ..*old(self) }),
    {
        let ghost ps0 = self.placements@;
        let n = self.placements.len();
        let mut i: usize = 0;
        while i < n
            invariant
                old(self).wf(),
                entry.wf(),
                *self == (Grid { placements: self.placements, ..*old(self) }),
                self.placements@ == ps0,
                ps0 == old(self).placements@,
                n == ps0.len(),
                0 <= i <= n,
                forall|j: int| 0 <= j < i ==> key_of(#[trigger] ps0[j]) != key_of(entry),
            decreases n - i,
        {
            let p = &self.placements[i];
            if p.row == entry.row && p.col == entry.col && p.row_span == entry.row_span && p.col_span == entry.col_span {
                self.placements.set(i, entry);
                proof {
                    let s1 = self.placements@;
                    assert(key_of(ps0[i as int]) == key_of(entry));
                    assert(s1 == ps0.update(i as int, entry));
                    assert forall|j: int| 0 <= j < s1.len() implies (#[trigger] s1[j]).wf() by {
                        if j != i as int {
                            assert(s1[j] == ps0[j]);
                        }
                    }
                    assert forall|j: int, k: int|
                        0 <= j < s1.len() && 0 <= k < s1.len() && j != k implies key_of(
                        #[trigger] s1[j],
                    ) != key_of(#[trigger] s1[k]) by {
                        assert(key_of(s1[j]) == key_of(ps0[j]));
                        assert(key_of(s1[k]) == key_of(ps0[k]));
                    }
                }
                return;
            }
            i += 1;
        }
        self.placements.push(entry);
    }
}

/// Filtering a one-element sequence keeps or drops its element.
proof fn lemma_filter_singleton(p: Placement, pred: spec_fn(Placement) -> bool)
    ensures
        seq![p].filter(pred) == if pred(p) {
            seq![p]
        } else {
            Seq::<Placement>::empty()
        },
{
    reveal_with_fuel(Seq::filter, 2);
    assert(seq![p].drop_last() =~= Seq::<Placement>::empty());
    assert(Seq::<Placement>::empty().filter(pred).push(p) =~= seq![p]);
}

/// Filtering a registry with well-formed entries and pairwise distinct keys
/// leaves a registry with well-formed entries and pairwise distinct keys, each
/// entry one of the original's.
proof fn lemma_filter_keeps_wf(s: Seq<Placement>, pred: spec_fn(Placement) -> bool)
    requires
        forall|i: int| 0 <= i < s.len() ==> (#[trigger] s[i]).wf(),
        forall|i: int, j: int|
            0 <= i < s.len() && 0 <= j < s.len() && i != j ==> key_of(#[trigger] s[i]) != key_of(
                #[trigger] s[j],
            ),
    ensures
        forall|i: int|
            0 <= i < s.filter(pred).len() ==> exists|k: int|
                0 <= k < s.len() && #[trigger] s.filter(pred)[i] == s[k],
        forall|i: int| 0 <= i < s.filter(pred).len() ==> (#[trigger] s.filter(pred)[i]).wf(),
        forall|i: int, j: int|
            0 <= i < s.filter(pred).len() && 0 <= j < s.filter(pred).len() && i != j ==> key_of(
                #[trigger] s.filter(pred)[i],
            ) != key_of(#[trigger] s.filter(pred)[j]),
    decreases s.len(),
{
    reveal(Seq::filter);
    if s.len() > 0 {
        let d = s.drop_last();
        let fd = d.filter(pred);
        let f = s.filter(pred);
        lemma_filter_keeps_wf(d, pred);
        assert forall|i: int| 0 <= i < f.len() implies exists|k: int|
            0 <= k < s.len() && #[trigger] f[i] == s[k] by {
            if pred(s.last()) && i == f.len() - 1 {
                assert(f[i] == s[s.len() - 1]);
            } else {
                assert(f[i] == fd[i]);
                let k = choose|k: int| 0 <= k < d.len() && fd[i] == d[k];
                assert(f[i] == s[k]);
            }
        }
        assert forall|i: int, j: int|
            0 <= i < f.len() && 0 <= j < f.len() && i != j implies key_of(#[trigger] f[i])
            != key_of(#[trigger] f[j]) by {
            lemma_filter_equal_entries_same_key(s, pred, i, j);
        }
    }
}

/// Two positions of a filtered registry that hold entries with equal keys are
/// the same position, provided the original's keys are pairwise distinct.
proof fn lemma_filter_equal_entries_same_key(s: Seq<Placement>, pred: spec_fn(Placement) -> bool, i: int, j: int)
    requires
        forall|a: int, b: int|
            0 <= a < s.len() && 0 <= b < s.len() && a != b ==> key_of(#[trigger] s[a]) != key_of(
                #[trigger] s[b],
            ),
        0 <= i < s.filter(pred).len(),
        0 <= j < s.filter(pred).len(),
        i != j,
    ensures
        key_of(s.filter(pred)[i]) != key_of(s.filter(pred)[j]),
    decreases s.len(),
{
    reveal(Seq::filter);
    if s.len() > 0 {
        let d = s.drop_last();
        let fd = d.filter(pred);
        let f = s.filter(pred);
        if pred(s.last()) && (i == f.len() - 1 || j == f.len() - 1) {
            let m = if i == f.len() - 1 { j } else { i };
            assert(f[m] == fd[m]);
            lemma_filter_entry_key_in_source(d, pred, m);
            let k = choose|k: int| 0 <= k < d.len() && key_of(#[trigger] d[k]) == key_of(fd[m]);
            assert(key_of(s[k]) != key_of(s[s.len() - 1]));
        } else {
            lemma_filter_equal_entries_same_key(d, pred, i, j);
            assert(f[i] == fd[i] && f[j] == fd[j]);
        }
    }
}

/// Each entry of a filtered registry has the key of some entry of the source.
proof fn lemma_filter_entry_key_in_source(s: Seq<Placement>, pred: spec_fn(Placement) -> bool, i: int)
    requires
        0 <= i < s.filter(pred).len(),
    ensures
        exists|k: int| 0 <= k < s.len() && key_of(#[trigger] s[k]) == key_of(s.filter(pred)[i]),
    decreases s.len(),
{
    reveal(Seq::filter);
    if s.len() > 0 {
        let d = s.drop_last();
        let fd = d.filter(pred);
        let f = s.filter(pred);
        if pred(s.last()) && i == f.len() - 1 {
            assert(key_of(s[s.len() - 1]) == key_of(f[i]));
        } else {
            lemma_filter_entry_key_in_source(d, pred, i);
            let k = choose|k: int| 0 <= k < d.len() && key_of(#[trigger] d[k]) == key_of(fd[i]);
            assert(key_of(s[k]) == key_of(f[i]));
        }
    }
}

impl Grid {
    /// Removes every placement whose child matches the given widget's
    /// identity, in particular a nested grid placed under that identity.
    /// A widget that was never placed leaves the grid unchanged.
    pub fn remove(&mut self, widget: &crate::geom::Widget)
        requires
            old(self).wf(),
        ensures
            final(self).wf(),
            *final(self) == (Grid { placements: final(self).placements, ..*old(self) }),
            final(self).placements@ == old(self).placements@.filter(
                |p: Placement| child_id(p.child) != widget.id,
            ),
            !has_id(final(self).placements@, widget.id),
    {
        let ghost ps0 = self.placements@;
        let ghost pred = |p: Placement| child_id(p.child) != widget.id;
        let mut kept: Vec<Placement> = Vec::new();
        while self.placements.len() > 0
            invariant
                old(self).wf(),
                *self == (Grid { placements: self.placements, ..*old(self) }),
                ps0 == old(self).placements@,
                self.placements@.len() <= ps0.len(),
                self.placements@ == ps0.subrange(
                    ps0.len() - self.placements@.len(),
                    ps0.len() as int,
                ),
                pred == (|p: Placement| child_id(p.child) != widget.id),
                kept@ == ps0.subrange(0, ps0.len() - self.placements@.len()).filter(pred),
            decreases self.placements@.len(),
        {
            let ghost done = ps0.len() - self.placements@.len();
            let p = self.placements.remove(0);
            proof {
                assert(p == ps0[done]);
                assert(self.placements@ =~= ps0.subrange(done + 1, ps0.len() as int));
                assert(ps0.subrange(0, done + 1) =~= ps0.subrange(0, done) + seq![p]);
                Seq::filter_distributes_over_add(ps0.subrange(0, done), seq![p], pred);
                lemma_filter_singleton(p, pred);
            }
            let keep = match &p.child {
                Child::Widget(wd) => wd.id != widget.id,
                Child::Grid(g) => g.id != widget.id,
            };
            if keep {
                kept.push(p);
                proof {
                    assert(kept@ =~= ps0.subrange(0, done).filter(pred) + seq![p]);
                    assert(kept@ =~= ps0.subrange(0, done + 1).filter(pred));
                }
            } else {
                proof {
                    assert(kept@ =~= ps0.subrange(0, done + 1).filter(pred));
                }
            }
        }
        self.placements = kept;
        proof {
            assert(ps0.subrange(0, ps0.len() as int) =~= ps0);
            let f = ps0.filter(pred);
            lemma_filter_keeps_wf(ps0, pred);
            assert forall|i: int| 0 <= i < f.len() implies child_id((#[trigger] f[i]).child)
                != widget.id by {
                Seq::lemma_filter_pred(ps0, pred, i);
            }
        }
    }
}

/// How a relayout rewrites one registry entry, given the partition
/// `rows` x `cols` and the new bounds `(x, y, w, h)`. An in-range entry keeps
/// its key; its widget now records the freshly computed cell rectangle, or
/// its nested grid is rewritten the same way for that rectangle. An
/// out-of-range entry is untouched.
pub open spec fn entry_reflowed(p: Placement, q: Placement, rows: int, cols: int, x: int, y: int, w: int, h: int) -> bool
    decreases p,
{
    if 0 <= p.row < rows && 0 <= p.col < cols {
        let cw = w / cols;
        let ch = h / rows;
        let r = crate::geom::Rect {
            x: (x + p.col * cw) as i32,
            y: (y + p.row * ch) as i32,
            w: (cw * p.row_span) as i32,
            h: (ch * p.col_span) as i32,
        };
        &&& q.row == p.row && q.col == p.col
        &&& q.row_span == p.row_span && q.col_span == p.col_span
        &&& match p.child {
            Child::Widget(wd) => q.child == Child::Widget(crate::geom::Widget { id: wd.id, rect: r }),
            Child::Grid(g) => q.child matches Child::Grid(g2)
                && reflow_rel(*g, *g2, r.x as int, r.y as int, r.w as int, r.h as int),
        }
    } else {
        q == p
    }
}

/// How a relayout to the bounds `(x, y, w, h)` rewrites a grid: `b` is `a`
/// moved to those bounds, with the identity, the partition and the diagnostic
/// flag unchanged, and each registry entry rewritten by [`entry_reflowed`].
pub open spec fn reflow_rel(a: Grid, b: Grid, x: int, y: int, w: int, h: int) -> bool
    decreases a,
{
    &&& b.x == x && b.y == y && b.w == w && b.h == h
    &&& b.id == a.id
    &&& b.rows == a.rows && b.cols == a.cols && b.debug_cells == a.debug_cells
    &&& b.placements@.len() == a.placements@.len()
    &&& forall|i: int|
        0 <= i < a.placements@.len() ==> entry_reflowed(
            #[trigger] a.placements@[i],
            b.placements@[i],
            a.rows as int,
            a.cols as int,
            x,
            y,
            w,
            h,
        )
}

/// Recomputes the registry of a grid for the bounds `(x, y, w, h)`: every
/// in-range placement gets the freshly computed cell rectangle, nested grids
/// recursively, and out-of-range placements are left as they are.
#[verifier::loop_isolation(false)]
fn reflow(g: Grid, x: i32, y: i32, w: i32, h: i32) -> (r: Grid)
    requires
        g.wf(),
        0 <= w,
        0 <= h,
        x + w <= i32::MAX,
        y + h <= i32::MAX,
        g.fits(x as int, y as int, w as int, h as int),
    ensures
        r.wf(),
        reflow_rel(g, r, x as int, y as int, w as int, h as int),
    decreases g,
{
    let ghost g0 = g;
    let Grid { id, x: _, y: _, w: _, h: _, rows, cols, mut placements, debug_cells } = g;
    let ghost ps0 = placements@;
    let mut out: Vec<Placement> = Vec::new();
    let cw: i32 = if rows > 0 && cols > 0 { w / cols } else { 0 };
    let ch: i32 = if rows > 0 && cols > 0 { h / rows } else { 0 };
    while placements.len() > 0
        invariant
            g0.wf(),
            g0.fits(x as int, y as int, w as int, h as int),
            0 <= w,
            0 <= h,
            x + w <= i32::MAX,
            y + h <= i32::MAX,
            rows == g0.rows,
            cols == g0.cols,
            ps0 == g0.placements@,
            cw == if rows > 0 && cols > 0 { w as int / cols as int } else { 0 },
            ch == if rows > 0 && cols > 0 { h as int / rows as int } else { 0 },
            out@.len() + placements@.len() == ps0.len(),
            placements@ == ps0.subrange(out@.len() as int, ps0.len() as int),
            forall|j: int| 0 <= j < out@.len() ==> (#[trigger] out@[j]).wf(),
            forall|j: int|
                0 <= j < out@.len() ==> entry_reflowed(
                    ps0[j],
                    #[trigger] out@[j],
                    rows as int,
                    cols as int,
                    x as int,
                    y as int,
                    w as int,
                    h as int,
                ),
        decreases placements@.len(),
    {
        let ghost done = out@.len() as int;
        let p = placements.remove(0);
        proof {
            assert(p == ps0[done]);
            assert(placements@ =~= ps0.subrange(done + 1, ps0.len() as int));
            assert(g0.placements@[done] == p);
        }
        if rows > 0 && cols > 0 && 0 <= p.row && p.row < rows && 0 <= p.col && p.col < cols {
            proof {
                crate::geom::lemma_cell_offset_in_width(w as int, cols as int, p.col as int);
                crate::geom::lemma_cell_offset_in_width(h as int, rows as int, p.row as int);
                vstd::arithmetic::mul::lemma_mul_nonnegative(cw as int, p.row_span as int);
                vstd::arithmetic::mul::lemma_mul_nonnegative(ch as int, p.col_span as int);
            }
            let cx = x + p.col * cw;
            let cy = y + p.row * ch;
            let ww = cw * p.row_span;
            let hh = ch * p.col_span;
            match p.child {
                Child::Widget(wd) => {
                    out.push(Placement {
                        row: p.row,
                        col: p.col,
                        row_span: p.row_span,
                        col_span: p.col_span,
                        child: Child::Widget(crate::geom::Widget {
                            id: wd.id,
                            rect: crate::geom::Rect { x: cx, y: cy, w: ww, h: hh },
                        }),
                    });
                },
                Child::Grid(b) => {
                    let inner: Grid = *b;
                    proof {
                        assert(inner == *g0.placements@[done].child->Grid_0);
                        assert(decreases_to!(g0 => *g0.placements@[done].child->Grid_0));
                    }
                    let inner2 = reflow(inner, cx, cy, ww, hh);
                    out.push(Placement {
                        row: p.row,
                        col: p.col,
                        row_span: p.row_span,
                        col_span: p.col_span,
                        child: Child::Grid(Box::new(inner2)),
                    });
                },
            }
        } else {
            out.push(p);
        }
        proof {
            assert(out@[done] == out@.last());
            assert(entry_reflowed(
                ps0[done],
                out@[done],
                rows as int,
                cols as int,
                x as int,
                y as int,
                w as int,
                h as int,
            ));
        }
    }
    let r = Grid { id, x, y, w, h, rows, cols, placements: out, debug_cells };
    proof {
        assert forall|i: int, j: int|
            0 <= i < r.placements@.len() && 0 <= j < r.placements@.len() && i != j implies key_of(
            #[trigger] r.placements@[i],
        ) != key_of(#[trigger] r.placements@[j]) by {
            assert(key_of(r.placements@[i]) == key_of(ps0[i]));
            assert(key_of(r.placements@[j]) == key_of(ps0[j]));
        }
        assert(r.wf());
        assert(reflow_rel(g0, r, x as int, y as int, w as int, h as int));
    }
    r
}

impl Grid {
    /// Moves the grid to the bounds `(x, y, w, h)` and relayouts every
    /// registered placement against the unchanged partition: widgets get the
    /// freshly computed cell rectangles, nested grids are resized to their
    /// cell rectangles and relaid out recursively, and out-of-range
    /// placements are skipped. An unconfigured grid rejects the call: nothing
    /// changes and `false` comes back.
    pub fn resize(&mut self, x: i32, y: i32, w: i32, h: i32) -> (done: bool)
        requires
            old(self).wf(),
            0 <= w,
            0 <= h,
            x + w <= i32::MAX,
            y + h <= i32::MAX,
            old(self).fits(x as int, y as int, w as int, h as int),
        ensures
            done == old(self).configured(),
            final(self).wf(),
            !done ==> *final(self) == *old(self),
            done ==> reflow_rel(*old(self), *final(self), x as int, y as int, w as int, h as int),
            done ==> final(self).laid_out(),
    {
        if self.rows <= 0 || self.cols <= 0 {
            return false;
        }
        let mut taken = Grid::new(self.id, 0, 0, 0, 0);
        core::mem::swap(self, &mut taken);
        let relaid = reflow(taken, x, y, w, h);
        *self = relaid;
        proof {
            lemma_reflow_rel_laid_out(*old(self), *self, x as int, y as int, w as int, h as int);
        }
        true
    }
}

/// A grid rewritten by a relayout is laid out: every in-range placement
/// records exactly the geometry the new bounds give it, nested grids
/// recursively.
pub proof fn lemma_reflow_rel_laid_out(a: Grid, b: Grid, x: int, y: int, w: int, h: int)
    requires
        a.wf(),
        reflow_rel(a, b, x, y, w, h),
    ensures
        b.laid_out(),
    decreases a,
{
    assert forall|i: int| 0 <= i < b.placements@.len() implies {
        let q = #[trigger] b.placements@[i];
        b.in_range(q.row as int, q.col as int) ==> {
            let r = b.placed_rect(q.row as int, q.col as int, q.row_span as int, q.col_span as int);
            match q.child {
                Child::Widget(wd) => wd.rect == r,
                Child::Grid(g) => {
                    &&& g.x == r.x
                    &&& g.y == r.y
                    &&& g.w == r.w
                    &&& g.h == r.h
                    &&& g.laid_out()
                },
            }
        }
    } by {
        let p = a.placements@[i];
        let q = b.placements@[i];
        assert(entry_reflowed(p, q, a.rows as int, a.cols as int, x, y, w, h));
        if b.in_range(p.row as int, p.col as int) {
            match p.child {
                Child::Widget(_) => {},
                Child::Grid(g) => {
                    let g2 = q.child->Grid_0;
                    let r = b.placed_rect(
                        p.row as int,
                        p.col as int,
                        p.row_span as int,
                        p.col_span as int,
                    );
                    assert(a.placements@[i].wf());
                    lemma_reflow_rel_laid_out(
                        *g,
                        *g2,
                        r.x as int,
                        r.y as int,
                        r.w as int,
                        r.h as int,
                    );
                },
            }
        }
    }
}

impl Grid {
    /// Places a widget over the cell ranges `row` x `col`: the anchor is
    /// `(row.start, col.start)`, the width spans `col` and the height spans
    /// `row`. Registration and rejection behave as in [`Grid::insert_ext`].
    pub fn insert(&mut self, widget: &mut crate::geom::Widget, row: crate::range::GridRange, col: crate::range::GridRange) -> (placed: bool)
        requires
            old(self).wf(),
            row.start < row.end,
            col.start < col.end,
            row.end <= i32::MAX as usize,
            col.end <= i32::MAX as usize,
            old(self).in_range(row.start as int, col.start as int) ==> {
                &&& old(self).cell_w() * (col.end - col.start) <= i32::MAX
                &&& old(self).cell_h() * (row.end - row.start) <= i32::MAX
            },
        ensures
            placed <==> old(self).configured() && old(self).in_range(
                row.start as int,
                col.start as int,
            ),
            final(self).wf(),
            !placed ==> *final(self) == *old(self) && *final(widget) == *old(widget),
            placed ==> {
                &&& *final(widget) == (crate::geom::Widget {
                    id: old(widget).id,
                    rect: old(self).placed_rect(
                        row.start as int,
                        col.start as int,
                        col.end - col.start,
                        row.end - row.start,
                    ),
                })
                &&& upsert_rel(
                    old(self).placements@,
                    final(self).placements@,
                    Placement {
                        row: row.start as i32,
                        col: col.start as i32,
                        row_span: (col.end - col.start) as i32,
                        col_span: (row.end - row.start) as i32,
                        child: Child::Widget(*final(widget)),
                    },
                )
                &&& *final(self) == (Grid { placements: final(self).placements, ..*old(self) })
            },
    {
        let row_span = col.len();
        let col_span = row.len();
        self.insert_ext(
            widget,
            row.start as i32,
            col.start as i32,
            row_span as i32,
            col_span as i32,
        )
    }

    /// Places a nested grid at the anchor cell `(row, col)` with the given
    /// spans. The nested grid is resized to the spanned cell rectangle, its
    /// own placements relaid out recursively, and the placement is registered
    /// the way a widget's is. When the anchor is rejected, the nested grid
    /// comes back unchanged in the `Err`.
    pub fn insert_grid_ext(&mut self, widget: Grid, row: i32, col: i32, row_span: i32, col_span: i32) -> (res: Result<(), Grid>)
        requires
            old(self).wf(),
            widget.wf(),
            row_span >= 1,
            col_span >= 1,
            old(self).in_range(row as int, col as int) ==> {
                &&& old(self).cell_w() * row_span <= i32::MAX
                &&& old(self).cell_h() * col_span <= i32::MAX
                &&& old(self).cell_x(col as int) + old(self).cell_w() * row_span <= i32::MAX
                &&& old(self).cell_y(row as int) + old(self).cell_h() * col_span <= i32::MAX
                &&& widget.fits(
                    old(self).cell_x(col as int),
                    old(self).cell_y(row as int),
                    old(self).cell_w() * row_span,
                    old(self).cell_h() * col_span,
                )
            },
        ensures
            res is Ok <==> old(self).configured() && old(self).in_range(row as int, col as int),
            final(self).wf(),
            res matches Err(g) ==> g == widget && *final(self) == *old(self),
            res is Ok ==> {
                let r = old(self).placed_rect(row as int, col as int, row_span as int, col_span as int);
                &&& *final(self) == (Grid { placements: final(self).placements, ..*old(self) })
                &&& exists|g2: Box<Grid>| {
                    &&& reflow_rel(widget, *g2, r.x as int, r.y as int, r.w as int, r.h as int)
                    &&& (*g2).wf()
                    &&& (*g2).laid_out()
                    &&& upsert_rel(
                        old(self).placements@,
                        final(self).placements@,
                        Placement { row, col, row_span, col_span, child: Child::Grid(g2) },
                    )
                }
            },
    {
        let rect = match self.find_cell(row, col) {
            Some(rc) => rc,
            None => {
                return Err(widget);
            },
        };
        proof {
            crate::geom::lemma_cell_offset_in_width(self.w as int, self.cols as int, col as int);
            crate::geom::lemma_cell_offset_in_width(self.h as int, self.rows as int, row as int);
            vstd::arithmetic::mul::lemma_mul_nonnegative(self.cell_w(), row_span as int);
            vstd::arithmetic::mul::lemma_mul_nonnegative(self.cell_h(), col_span as int);
        }
        let ww = rect.w * row_span;
        let hh = rect.h * col_span;
        let inner = reflow(widget, rect.x, rect.y, ww, hh);
        proof {
            lemma_reflow_rel_laid_out(
                widget,
                inner,
                rect.x as int,
                rect.y as int,
                ww as int,
                hh as int,
            );
        }
        let boxed = Box::new(inner);
        let ghost witness = boxed;
        self.register(Placement { row, col, row_span, col_span, child: Child::Grid(boxed) });
        proof {
            assert(reflow_rel(
                widget,
                *witness,
                old(self).placed_rect(row as int, col as int, row_span as int, col_span as int).x as int,
                old(self).placed_rect(row as int, col as int, row_span as int, col_span as int).y as int,
                old(self).placed_rect(row as int, col as int, row_span as int, col_span as int).w as int,
                old(self).placed_rect(row as int, col as int, row_span as int, col_span as int).h as int,
            ));
        }
        Ok(())
    }

    /// Places a nested grid over the cell ranges `row` x `col`, the way
    /// [`Grid::insert`] places a widget: anchored at
    /// `(row.start, col.start)`, the width spanning `col` and the height
    /// spanning `row`.
    pub fn insert_grid(&mut self, widget: Grid, row: crate::range::GridRange, col: crate::range::GridRange) -> (res: Result<(), Grid>)
        requires
            old(self).wf(),
            widget.wf(),
            row.start < row.end,
            col.start < col.end,
            row.end <= i32::MAX as usize,
            col.end <= i32::MAX as usize,
            old(self).in_range(row.start as int, col.start as int) ==> {
                &&& old(self).cell_w() * (col.end - col.start) <= i32::MAX
                &&& old(self).cell_h() * (row.end - row.start) <= i32::MAX
                &&& old(self).cell_x(col.start as int) + old(self).cell_w() * (col.end
                    - col.start) <= i32::MAX
                &&& old(self).cell_y(row.start as int) + old(self).cell_h() * (row.end
                    - row.start) <= i32::MAX
                &&& widget.fits(
                    old(self).cell_x(col.start as int),
                    old(self).cell_y(row.start as int),
                    old(self).cell_w() * (col.end - col.start),
                    old(self).cell_h() * (row.end - row.start),
                )
            },
        ensures
            res is Ok <==> old(self).configured() && old(self).in_range(
                row.start as int,
                col.start as int,
            ),
            final(self).wf(),
            res matches Err(g) ==> g == widget && *final(self) == *old(self),
            res is Ok ==> {
                let r = old(self).placed_rect(
                    row.start as int,
                    col.start as int,
                    col.end - col.start,
                    row.end - row.start,
                );
                &&& *final(self) == (Grid { placements: final(self).placements, ..*old(self) })
                &&& exists|g2: Box<Grid>| {
                    &&& reflow_rel(widget, *g2, r.x as int, r.y as int, r.w as int, r.h as int)
                    &&& (*g2).wf()
                    &&& (*g2).laid_out()
                    &&& upsert_rel(
                        old(self).placements@,
                        final(self).placements@,
                        Placement {
                            row: row.start as i32,
                            col: col.start as i32,
                            row_span: (col.end - col.start) as i32,
                            col_span: (row.end - row.start) as i32,
                            child: Child::Grid(g2),
                        },
                    )
                }
            },
    {
        let row_span = col.len();
        let col_span = row.len();
        self.insert_grid_ext(
            widget,
            row.start as i32,
            col.start as i32,
            row_span as i32,
            col_span as i32,
        )
    }
}

impl Default for Grid {
    /// An unconfigured grid with identity zero at the origin, of zero size.
    fn default() -> (g: Grid)
        ensures
            g.id == 0,
            g.x == 0 && g.y == 0 && g.w == 0 && g.h == 0,
            g.rows == 0 && g.cols == 0,
            g.placements@.len() == 0,
            !g.debug_cells,
            g.wf(),
    {
        Grid::new(0, 0, 0, 0, 0)
    }
}

} // verus!
