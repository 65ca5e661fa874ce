//! Tiling layouts: which area each tiled window gets on the output.
use vstd::prelude::*;
use crate::geometry::{Point, Size, Rect};
use crate::window::{Window, WindowId, WindowView, DECORATION_HEIGHT};

verus! {

/// How tiled windows are arranged. The master share of the width is given
/// in percent.
#[derive(Clone, Copy, Debug, PartialEq, Eq, Structural)]
pub enum LayoutMode {
    MasterStack { ratio: u32 },
    Grid,
}

impl LayoutMode {
    /// The master/stack split used after switching away from the grid.
    pub open spec fn switched_master_stack() -> LayoutMode {
        LayoutMode::MasterStack { ratio: 60 }
    }

    pub open spec fn spec_next(self) -> LayoutMode {
        match self {
            LayoutMode::MasterStack { .. } => LayoutMode::Grid,
            LayoutMode::Grid => Self::switched_master_stack(),
        }
    }

    /// Switches between master/stack and grid.
    pub fn next(self) -> (r: LayoutMode)
        ensures
            r == self.spec_next(),
    {
        match self {
            LayoutMode::MasterStack { .. } => LayoutMode::Grid,
            LayoutMode::Grid => LayoutMode::MasterStack { ratio: 60 },
        }
    }

    /// Switches between master/stack and grid (with two layouts, the same
    /// switch as [`LayoutMode::next`]).
    pub fn prev(self) -> (r: LayoutMode)
        ensures
            r == self.spec_next(),
    {
        match self {
            LayoutMode::MasterStack { .. } => LayoutMode::Grid,
            LayoutMode::Grid => LayoutMode::MasterStack { ratio: 60 },
        }
    }
}

impl Default for LayoutMode {
    /// An even master/stack split.
    fn default() -> (r: LayoutMode)
        ensures
            r == (LayoutMode::MasterStack { ratio: 50 }),
    {
        LayoutMode::MasterStack { ratio: 50 }
    }
}

/// Gaps between tiled windows (`inner`) and between them and the output's
/// edges (`outer`).
#[derive(Clone, Copy, Debug, PartialEq, Eq, Structural)]
pub struct Gaps {
    pub inner: i32,
    pub outer: i32,
}

impl Default for Gaps {
    fn default() -> (r: Gaps)
        ensures
            r == (Gaps { inner: 0, outer: 0 }),
    {
        Gaps { inner: 0, outer: 0 }
    }
}

pub open spec fn fits(x: int) -> bool {
    i32::MIN <= x <= i32::MAX
}

pub open spec fn imax(a: int, b: int) -> int {
    if a >= b { a } else { b }
}

/// Division rounding toward zero, for `b > 0`.
pub open spec fn tdiv(a: int, b: int) -> int {
    if a >= 0 { a / b } else { -((-a) / b) }
}

pub open spec fn outer_gaps_fit(output: Size, outer: i32) -> bool {
    &&& fits(2 * outer)
    &&& fits(output.w - 2 * outer)
    &&& fits(output.h - 2 * outer)
}

/// The output shrunk by the outer gap on each side, at least 1x1.
pub open spec fn outer_area(output: Size, outer: i32) -> Rect {
    Rect {
        loc: Point { x: outer, y: outer },
        size: Size {
            w: imax(output.w - 2 * outer, 1) as i32,
            h: imax(output.h - 2 * outer, 1) as i32,
        },
    }
}

/// The master column's width: `ratio` percent of `w`, rounded down.
pub open spec fn master_width(w: int, ratio: u32) -> int {
    w * ratio / 100
}

/// Height of each of the `sc` stacked windows.
pub open spec fn stack_height(h: int, inner: int, sc: int) -> int {
    imax(tdiv(h - inner * imax(sc - 1, 0), sc), 1)
}

pub open spec fn master_stack_fits(count: nat, output: Size, gaps: Gaps, ratio: u32) -> bool {
    &&& count >= 1
    &&& ratio <= 100
    &&& outer_gaps_fit(output, gaps.outer)
    &&& count >= 2 ==> {
        let a = outer_area(output, gaps.outer);
        let mw = master_width(a.size.w as int, ratio);
        let sc = count - 1;
        let inner = gaps.inner as int;
        let sh = stack_height(a.size.h as int, inner, sc);
        &&& sc <= i32::MAX
        &&& fits(a.size.w - mw - inner)
        &&& fits(a.loc.x + mw)
        &&& fits(a.loc.x + mw + inner)
        &&& fits(inner * imax(sc - 1, 0))
        &&& fits(a.size.h - inner * imax(sc - 1, 0))
        &&& fits(sh + inner)
        &&& forall|i: int|
            0 <= i < sc ==> fits(#[trigger] (i * (sh + inner))) && fits(a.loc.y + i * (sh + inner))
    }
}

/// The master window takes the left `ratio` percent of the area; the others
/// are stacked in equal heights in the rest, separated by the inner gap.
pub open spec fn master_stack_layout(count: nat, output: Size, gaps: Gaps, ratio: u32) -> Seq<Rect> {
    let a = outer_area(output, gaps.outer);
    if count <= 1 {
        seq![a]
    } else {
        let mw = master_width(a.size.w as int, ratio);
        let sc = count - 1;
        let inner = gaps.inner as int;
        let sh = stack_height(a.size.h as int, inner, sc);
        let sx = a.loc.x + mw + inner;
        let sw = a.size.w - mw - inner;
        seq![Rect { loc: a.loc, size: Size { w: mw as i32, h: a.size.h } }] + Seq::new(
            sc as nat,
            |i: int|
                Rect {
                    loc: Point { x: sx as i32, y: (a.loc.y + i * (sh + inner)) as i32 },
                    size: Size { w: sw as i32, h: sh as i32 },
                },
        )
    }
}

/// The smallest `c` with `c * c >= n`.
pub open spec fn is_ceil_sqrt(n: int, c: int) -> bool {
    &&& c >= 0
    &&& c * c >= n
    &&& (c == 0 || (c - 1) * (c - 1) < n)
}

pub open spec fn ceil_sqrt(n: nat) -> int {
    choose|c: int| is_ceil_sqrt(n as int, c)
}

pub open spec fn grid_columns(count: nat) -> int {
    ceil_sqrt(count)
}

pub open spec fn grid_rows(count: nat) -> int {
    let c = grid_columns(count);
    (count + c - 1) / c
}

pub open spec fn grid_cell_w(count: nat, output: Size, gaps: Gaps) -> int {
    let a = outer_area(output, gaps.outer);
    let c = grid_columns(count);
    imax(tdiv(a.size.w - gaps.inner * imax(c - 1, 0), c), 1)
}

pub open spec fn grid_cell_h(count: nat, output: Size, gaps: Gaps) -> int {
    let a = outer_area(output, gaps.outer);
    let r = grid_rows(count);
    imax(tdiv(a.size.h - gaps.inner * imax(r - 1, 0), r), 1)
}

pub open spec fn grid_fits(count: nat, output: Size, gaps: Gaps) -> bool {
    let a = outer_area(output, gaps.outer);
    let c = grid_columns(count);
    let r = grid_rows(count);
    let inner = gaps.inner as int;
    let cw = grid_cell_w(count, output, gaps);
    let ch = grid_cell_h(count, output, gaps);
    &&& count >= 1
    &&& count <= i32::MAX
    &&& outer_gaps_fit(output, gaps.outer)
    &&& fits(inner * imax(c - 1, 0))
    &&& fits(inner * imax(r - 1, 0))
    &&& fits(a.size.w - inner * imax(c - 1, 0))
    &&& fits(a.size.h - inner * imax(r - 1, 0))
    &&& fits(cw + inner)
    &&& fits(ch + inner)
    &&& forall|i: int|
        0 <= i < count ==> {
            &&& fits(#[trigger] ((i % c) * (cw + inner)))
            &&& fits(a.loc.x + (i % c) * (cw + inner))
            &&& fits((i / c) * (ch + inner))
            &&& fits(a.loc.y + (i / c) * (ch + inner))
        }
}

/// Cells of equal size in `ceil(sqrt(count))` columns, filled row by row.
pub open spec fn grid_layout(count: nat, output: Size, gaps: Gaps) -> Seq<Rect> {
    let a = outer_area(output, gaps.outer);
    let c = grid_columns(count);
    let inner = gaps.inner as int;
    let cw = grid_cell_w(count, output, gaps);
    let ch = grid_cell_h(count, output, gaps);
    Seq::new(
        count,
        |i: int|
            Rect {
                loc: Point {
                    x: (a.loc.x + (i % c) * (cw + inner)) as i32,
                    y: (a.loc.y + (i / c) * (ch + inner)) as i32,
                },
                size: Size { w: cw as i32, h: ch as i32 },
            },
    )
}

/// The output shrunk by the outer gap on each side, at least 1x1.
pub fn apply_outer_gaps(output: Size, outer: i32) -> (r: Rect)
    requires
        outer_gaps_fit(output, outer),
    ensures
        r == outer_area(output, outer),
{
    let w = output.w - outer * 2;
    let h = output.h - outer * 2;
    Rect {
        loc: Point { x: outer, y: outer },
        size: Size { w: if w >= 1 { w } else { 1 }, h: if h >= 1 { h } else { 1 } },
    }
}

proof fn lemma_tdiv_bound(x: int, b: int)
    requires
        b >= 1,
    ensures
        x >= 0 ==> 0 <= tdiv(x, b) <= x,
        x < 0 ==> x <= tdiv(x, b) <= 0,
{
    if x >= 0 {
        vstd::arithmetic::div_mod::lemma_div_is_ordered_by_denominator(x, 1, b);
        vstd::arithmetic::div_mod::lemma_div_pos_is_pos(x, b);
    } else {
        vstd::arithmetic::div_mod::lemma_div_is_ordered_by_denominator(-x, 1, b);
        vstd::arithmetic::div_mod::lemma_div_pos_is_pos(-x, b);
    }
}

proof fn lemma_master_width(w: int, ratio: u32)
    requires
        w >= 1,
        ratio <= 100,
    ensures
        0 <= master_width(w, ratio) <= w,
{
    assert(0 <= w * ratio <= w * 100) by (nonlinear_arith)
        requires
            w >= 1,
            ratio <= 100,
    ;
    assert(w * 100 / 100 == w) by (nonlinear_arith);
    vstd::arithmetic::div_mod::lemma_div_is_ordered(w * ratio, w * 100, 100);
    vstd::arithmetic::div_mod::lemma_div_pos_is_pos(w * ratio, 100);
}

/// Rectangles for `count` windows in the master/stack layout.
pub fn master_stack_rects(count: usize, output: Size, gaps: Gaps, ratio: u32) -> (r: Vec<Rect>)
    requires
        master_stack_fits(count as nat, output, gaps, ratio),
    ensures
        r@ == master_stack_layout(count as nat, output, gaps, ratio),
        r@.len() == count,
{
    let area = apply_outer_gaps(output, gaps.outer);
    if count == 1 {
        let mut v: Vec<Rect> = Vec::new();
        v.push(area);
        proof {
            assert(v@ =~= master_stack_layout(count as nat, output, gaps, ratio));
        }
        return v;
    }
    proof {
        lemma_master_width(area.size.w as int, ratio);
    }
    let mw = ((area.size.w as i64) * (ratio as i64) / 100) as i32;
    let stack_width = area.size.w - mw - gaps.inner;
    let master = Rect { loc: area.loc, size: Size { w: mw, h: area.size.h } };
    let stack_x = area.loc.x + mw + gaps.inner;
    let stack_y = area.loc.y;
    let mut rects: Vec<Rect> = Vec::new();
    rects.push(master);
    let stack_count = count - 1;
    let sc = stack_count as i32;
    let m = if sc - 1 >= 0 { sc - 1 } else { 0 };
    let stack_height_total = area.size.h - gaps.inner * m;
    let q = stack_height_total / sc;
    let sh = if q >= 1 { q } else { 1 };
    let ghost layout = master_stack_layout(count as nat, output, gaps, ratio);
    proof {
        assert(sh == stack_height(area.size.h as int, gaps.inner as int, stack_count as int));
        assert(mw == master_width(area.size.w as int, ratio));
    }
    let mut i: usize = 0;
    while i < stack_count
        invariant
            master_stack_fits(count as nat, output, gaps, ratio),
            count >= 2,
            stack_count == count - 1,
            area == outer_area(output, gaps.outer),
            layout == master_stack_layout(count as nat, output, gaps, ratio),
            mw == master_width(area.size.w as int, ratio),
            sh == stack_height(area.size.h as int, gaps.inner as int, stack_count as int),
            stack_x == area.loc.x + mw + gaps.inner,
            stack_width == area.size.w - mw - gaps.inner,
            stack_y == area.loc.y,
            i <= stack_count,
            rects@.len() == i + 1,
            forall|k: int| 0 <= k < i + 1 ==> rects@[k] == layout[k],
        decreases stack_count - i,
    {
        proof {
            assert(fits(i * (sh + gaps.inner)));
        }
        let y = stack_y + (i as i32) * (sh + gaps.inner);
        rects.push(Rect { loc: Point { x: stack_x, y }, size: Size { w: stack_width, h: sh } });
        i += 1;
    }
    proof {
        assert(rects@ =~= layout);
    }
    rects
}

proof fn lemma_ceil_sqrt_exists(n: nat)
    ensures
        exists|c: int| #[trigger] is_ceil_sqrt(n as int, c),
    decreases n,
{
    if n == 0 {
        assert(is_ceil_sqrt(0, 0));
    } else {
        lemma_ceil_sqrt_exists((n - 1) as nat);
        let c = choose|c: int| #[trigger] is_ceil_sqrt(n - 1, c);
        if c * c >= n {
            assert(is_ceil_sqrt(n as int, c));
        } else {
            assert((c + 1) * (c + 1) >= n) by (nonlinear_arith)
                requires
                    c * c >= n - 1,
                    c >= 0,
            ;
            assert(is_ceil_sqrt(n as int, c + 1));
        }
    }
}

proof fn lemma_ceil_sqrt_unique(n: int, c: int, d: int)
    requires
        is_ceil_sqrt(n, c),
        is_ceil_sqrt(n, d),
    ensures
        c == d,
{
    if c < d {
        assert(c * c <= (d - 1) * (d - 1)) by (nonlinear_arith)
            requires
                0 <= c <= d - 1,
        ;
    } else if d < c {
        assert(d * d <= (c - 1) * (c - 1)) by (nonlinear_arith)
            requires
                0 <= d <= c - 1,
        ;
    }
}

/// `ceil(sqrt(n))`, the number of grid columns for `n` windows.
fn ceil_sqrt_exec(n: usize) -> (r: usize)
    requires
        n <= i32::MAX,
    ensures
        r == ceil_sqrt(n as nat),
        r <= n,
        n >= 1 ==> r >= 1,
{
    let mut c: u64 = 0;
    while c * c < n as u64
        invariant
            c <= n,
            n <= i32::MAX,
            c * c <= (i32::MAX as int) * (i32::MAX as int),
            c == 0 || (c - 1) * (c - 1) < n,
        decreases n - c,
    {
        proof {
            if c >= 1 {
                assert(c <= c * c) by (nonlinear_arith)
                    requires
                        c >= 1,
                ;
            }
            assert((c + 1) * (c + 1) <= (i32::MAX as int) * (i32::MAX as int)) by (nonlinear_arith)
                requires
                    c + 1 <= n,
                    n <= i32::MAX,
            ;
        }
        c = c + 1;
    }
    proof {
        assert(is_ceil_sqrt(n as int, c as int));
        let d = choose|d: int| is_ceil_sqrt(n as int, d);
        lemma_ceil_sqrt_unique(n as int, c as int, d);
        if n >= 1 && c == 0 {
            assert(false);
        }
    }
    c as usize
}

/// Rectangles for `count` windows in the grid layout.
pub fn grid_rects(count: usize, output: Size, gaps: Gaps) -> (r: Vec<Rect>)
    requires
        grid_fits(count as nat, output, gaps),
    ensures
        r@ == grid_layout(count as nat, output, gaps),
        r@.len() == count,
{
    let area = apply_outer_gaps(output, gaps.outer);
    let columns_u = ceil_sqrt_exec(count);
    let rows_u = (count + columns_u - 1) / columns_u;
    proof {
        assert(rows_u <= count) by {
            assert(count + columns_u - 1 <= count * columns_u) by (nonlinear_arith)
                requires
                    columns_u >= 1,
                    count >= 1,
            ;
            vstd::arithmetic::div_mod::lemma_div_is_ordered((count + columns_u - 1) as int, (count * columns_u) as int, columns_u as int);
            vstd::arithmetic::div_mod::lemma_div_multiples_vanish(count as int, columns_u as int);
        }
        assert(rows_u >= 1) by {
            vstd::arithmetic::div_mod::lemma_div_is_ordered(columns_u as int, (count + columns_u - 1) as int, columns_u as int);
            vstd::arithmetic::div_mod::lemma_div_by_self(columns_u as int);
        }
    }
    let columns = columns_u as i32;
    let rows = rows_u as i32;
    let mc = if columns - 1 >= 0 { columns - 1 } else { 0 };
    let mr = if rows - 1 >= 0 { rows - 1 } else { 0 };
    let total_inner_w = gaps.inner * mc;
    let total_inner_h = gaps.inner * mr;
    let qw = (area.size.w - total_inner_w) / columns;
    let qh = (area.size.h - total_inner_h) / rows;
    let cell_w = if qw >= 1 { qw } else { 1 };
    let cell_h = if qh >= 1 { qh } else { 1 };
    let ghost layout = grid_layout(count as nat, output, gaps);
    proof {
        assert(columns == grid_columns(count as nat));
        assert(rows == grid_rows(count as nat));
        assert(cell_w == grid_cell_w(count as nat, output, gaps));
        assert(cell_h == grid_cell_h(count as nat, output, gaps));
    }
    let mut rects: Vec<Rect> = Vec::new();
    let mut i: usize = 0;
    while i < count
        invariant
            grid_fits(count as nat, output, gaps),
            area == outer_area(output, gaps.outer),
            layout == grid_layout(count as nat, output, gaps),
            columns == grid_columns(count as nat),
            columns >= 1,
            cell_w == grid_cell_w(count as nat, output, gaps),
            cell_h == grid_cell_h(count as nat, output, gaps),
            i <= count,
            rects@.len() == i,
            forall|k: int| 0 <= k < i ==> rects@[k] == layout[k],
        decreases count - i,
    {
        let ii = i as i32;
        let col = ii % columns;
        let row = ii / columns;
        proof {
            assert(fits(((i as int) % (columns as int)) * (cell_w + gaps.inner)));
        }
        let x = area.loc.x + col * (cell_w + gaps.inner);
        let y = area.loc.y + row * (cell_h + gaps.inner);
        rects.push(Rect { loc: Point { x, y }, size: Size { w: cell_w, h: cell_h } });
        i += 1;
    }
    proof {
        assert(rects@ =~= layout);
    }
    rects
}

/// Whether a window takes part in tiling on workspace `ws`: it lies there,
/// is shown, does not float and is not being dragged.
pub open spec fn tiled(w: WindowView, ws: usize) -> bool {
    !w.dragging && !w.is_floating() && !w.minimized && w.workspace == ws
}

/// Positions of the tiled windows, in stacking order.
pub open spec fn tiled_indices(s: Seq<WindowView>, ws: usize) -> Seq<int>
    decreases s.len(),
{
    if s.len() == 0 {
        Seq::empty()
    } else {
        let r = tiled_indices(s.drop_last(), ws);
        if tiled(s.last(), ws) {
            r.push(s.len() - 1)
        } else {
            r
        }
    }
}

/// The client size for a tiled area: the area minus the decoration, at
/// least 1x1.
pub open spec fn client_size(r: Rect) -> Size {
    Size { w: imax(r.size.w as int, 1) as i32, h: imax(r.size.h - DECORATION_HEIGHT, 1) as i32 }
}

/// The slot of position `i` among the tiled positions `t`.
pub open spec fn slot_of(t: Seq<int>, i: int) -> int {
    choose|k: int| 0 <= k < t.len() && t[k] == i
}

/// The windows after their first `n` tiled slots got their areas.
pub open spec fn arranged_upto(s: Seq<WindowView>, t: Seq<int>, rects: Seq<Rect>, n: int) -> Seq<
    WindowView,
> {
    Seq::new(
        s.len(),
        |i: int|
            if exists|k: int| 0 <= k < n && k < t.len() && t[k] == i {
                let k = slot_of(t, i);
                s[i].with_geometry(rects[k].loc, client_size(rects[k]))
            } else {
                s[i]
            },
    )
}

/// Identifiers of the windows among the first `n` tiled slots whose geometry
/// the layout changes, in slot order.
pub open spec fn changed_ids(s: Seq<WindowView>, t: Seq<int>, rects: Seq<Rect>, n: nat) -> Seq<
    WindowId,
>
    decreases n,
{
    if n == 0 {
        Seq::empty()
    } else {
        let r = changed_ids(s, t, rects, (n - 1) as nat);
        let w = s[t[n - 1]];
        let rect = rects[n - 1];
        if w.location != rect.loc || w.size != client_size(rect) {
            r.push(w.id)
        } else {
            r
        }
    }
}

proof fn lemma_tiled_indices(s: Seq<WindowView>, ws: usize)
    ensures
        forall|k: int|
            0 <= k < tiled_indices(s, ws).len() ==> 0 <= #[trigger] tiled_indices(s, ws)[k]
                < s.len() && tiled(s[tiled_indices(s, ws)[k]], ws),
        forall|a: int, b: int|
            0 <= a < b < tiled_indices(s, ws).len() ==> #[trigger] tiled_indices(s, ws)[a]
                < #[trigger] tiled_indices(s, ws)[b],
        forall|i: int|
            0 <= i < s.len() && tiled(#[trigger] s[i], ws) ==> exists|k: int|
                0 <= k < tiled_indices(s, ws).len() && tiled_indices(s, ws)[k] == i,
    decreases s.len(),
{
    if s.len() > 0 {
        let t = s.drop_last();
        lemma_tiled_indices(t, ws);
        let r = tiled_indices(t, ws);
        let q = tiled_indices(s, ws);
        assert forall|k: int| 0 <= k < q.len() implies 0 <= #[trigger] q[k] < s.len() && tiled(
            s[q[k]],
            ws,
        ) by {
            if k < r.len() {
                assert(q[k] == r[k]);
                assert(s[r[k]] == t[r[k]]);
            }
        }
        assert forall|a: int, b: int| 0 <= a < b < q.len() implies #[trigger] q[a] < #[trigger] q[b] by {
            if b < r.len() {
                assert(q[a] == r[a] && q[b] == r[b]);
            } else {
                assert(q[a] == r[a]);
            }
        }
        assert forall|i: int| 0 <= i < s.len() && tiled(#[trigger] s[i], ws) implies exists|k: int|
            0 <= k < q.len() && q[k] == i by {
            if i < s.len() - 1 {
                assert(s[i] == t[i]);
                let k = choose|k: int| 0 <= k < r.len() && r[k] == i;
                assert(q[k] == r[k]);
            } else {
                assert(q[q.len() - 1] == i);
            }
        }
    } else {
        assert(tiled_indices(s, ws) =~= Seq::<int>::empty());
    }
}

/// Arranges the tiled windows: the current mode and the gaps.
#[derive(Clone, Copy, Debug)]
pub struct LayoutEngine {
    pub mode: LayoutMode,
    pub gaps: Gaps,
}

impl Default for LayoutEngine {
    fn default() -> (r: LayoutEngine)
        ensures
            r == (LayoutEngine {
                mode: LayoutMode::MasterStack { ratio: 50 },
                gaps: Gaps { inner: 0, outer: 0 },
            }),
    {
        LayoutEngine { mode: LayoutMode::MasterStack { ratio: 50 }, gaps: Gaps { inner: 0, outer: 0 } }
    }
}

impl LayoutEngine {
    /// The areas for `count` tiled windows on an output of size `output`.
    pub open spec fn layout(self, count: nat, output: Size) -> Seq<Rect> {
        match self.mode {
            LayoutMode::MasterStack { ratio } => master_stack_layout(count, output, self.gaps, ratio),
            LayoutMode::Grid => grid_layout(count, output, self.gaps),
        }
    }

    /// Whether laying out `count` windows stays within `i32` arithmetic.
    pub open spec fn fits_for(self, count: nat, output: Size) -> bool {
        count == 0 || match self.mode {
            LayoutMode::MasterStack { ratio } => master_stack_fits(count, output, self.gaps, ratio),
            LayoutMode::Grid => grid_fits(count, output, self.gaps),
        }
    }

    /// The windows after arranging those tiled on workspace `ws`.
    pub open spec fn arranged(self, s: Seq<WindowView>, ws: usize, output: Size) -> Seq<WindowView> {
        let t = tiled_indices(s, ws);
        arranged_upto(s, t, self.layout(t.len(), output), t.len() as int)
    }

    /// Identifiers of the windows whose geometry arranging changes.
    pub open spec fn changed(self, s: Seq<WindowView>, ws: usize, output: Size) -> Seq<WindowId> {
        let t = tiled_indices(s, ws);
        changed_ids(s, t, self.layout(t.len(), output), t.len())
    }

    proof fn lemma_heights(self, count: nat, output: Size)
        requires
            count >= 1,
            self.fits_for(count, output),
        ensures
            self.layout(count, output).len() == count,
            forall|k: int| 0 <= k < count ==> (#[trigger] self.layout(count, output)[k]).size.h >= 1,
    {
        let l = self.layout(count, output);
        let a = outer_area(output, self.gaps.outer);
        match self.mode {
            LayoutMode::MasterStack { ratio } => {
                if count >= 2 {
                    let x = a.size.h - self.gaps.inner * imax(count - 2, 0);
                    lemma_tdiv_bound(x, count - 1);
                }
                assert forall|k: int| 0 <= k < count implies (#[trigger] l[k]).size.h >= 1 by {
                    if k > 0 {
                        assert(l[k].size.h == stack_height(a.size.h as int, self.gaps.inner as int, count - 1));
                    }
                }
            },
            LayoutMode::Grid => {
                let c = grid_columns(count);
                let r = grid_rows(count);
                lemma_ceil_sqrt_exists(count);
                assert(is_ceil_sqrt(count as int, c));
                assert(c >= 1) by {
                    if c == 0 {
                        assert(c * c == 0);
                    }
                }
                assert(count + c - 1 >= c);
                vstd::arithmetic::div_mod::lemma_div_is_ordered(c, count + c - 1, c);
                vstd::arithmetic::div_mod::lemma_div_by_self(c);
                assert(r >= 1);
                lemma_tdiv_bound(a.size.h - self.gaps.inner * imax(r - 1, 0), r);
            },
        }
    }

    /// Gives each window tiled on workspace `workspace` its area (without the
    /// decoration) and returns the identifiers of those whose geometry
    /// changed, in tiling order.
    pub fn apply(&self, output: Size, windows: &mut Vec<Window>, workspace: usize) -> (changed: Vec<
        WindowId,
    >)
        requires
            forall|i: int| 0 <= i < old(windows)@.len() ==> (#[trigger] old(windows)@[i])@.well_formed(),
            self.fits_for(
                tiled_indices(old(windows)@.map_values(|w: Window| w@), workspace).len(),
                output,
            ),
        ensures
            final(windows)@.map_values(|w: Window| w@) == self.arranged(
                old(windows)@.map_values(|w: Window| w@),
                workspace,
                output,
            ),
            changed@ == self.changed(old(windows)@.map_values(|w: Window| w@), workspace, output),
    {
        let ghost s = windows@.map_values(|w: Window| w@);
        let ghost t = tiled_indices(s, workspace);
        proof {
            lemma_tiled_indices(s, workspace);
        }
        let n = windows.len();
        let mut active: Vec<usize> = Vec::new();
        let mut i: usize = 0;
        while i < n
            invariant
                n == windows@.len(),
                s == windows@.map_values(|w: Window| w@),
                i <= n,
                active@.map_values(|x: usize| x as int) == tiled_indices(s.take(i as int), workspace),
            decreases n - i,
        {
            proof {
                assert(s.take(i as int + 1).drop_last() =~= s.take(i as int));
                assert(s.take(i as int + 1).last() == s[i as int]);
                assert(s[i as int] == windows@[i as int]@);
            }
            let w = &windows[i];
            if !w.is_dragging() && !w.is_floating() && !w.is_minimized() && w.workspace() == workspace {
                active.push(i);
                proof {
                    assert(active@.map_values(|x: usize| x as int) =~= tiled_indices(s.take(i as int + 1), workspace));
                }
            } else {
                proof {
                    assert(active@.map_values(|x: usize| x as int) =~= tiled_indices(s.take(i as int + 1), workspace));
                }
            }
            i += 1;
        }
        proof {
            assert(s.take(n as int) =~= s);
        }
        let count = active.len();
        if count == 0 {
            proof {
                assert(windows@.map_values(|w: Window| w@) =~= self.arranged(s, workspace, output));
            }
            return Vec::new();
        }
        let rects = match self.mode {
            LayoutMode::MasterStack { ratio } => master_stack_rects(count, output, self.gaps, ratio),
            LayoutMode::Grid => grid_rects(count, output, self.gaps),
        };
        let ghost layout = self.layout(count as nat, output);
        proof {
            self.lemma_heights(count as nat, output);
            assert(rects@ == layout);
        }
        let mut changed: Vec<WindowId> = Vec::new();
        let mut slot: usize = 0;
        while slot < count
            invariant
                count == active@.len(),
                count == t.len(),
                n == windows@.len(),
                t == tiled_indices(s, workspace),
                active@.map_values(|x: usize| x as int) == t,
                rects@ == layout,
                layout == self.layout(count as nat, output),
                layout.len() == count,
                forall|k: int| 0 <= k < count ==> (#[trigger] layout[k]).size.h >= 1,
                forall|k: int| 0 <= k < t.len() ==> 0 <= #[trigger] t[k] < s.len() && tiled(s[t[k]], workspace),
                forall|a: int, b: int| 0 <= a < b < t.len() ==> #[trigger] t[a] < #[trigger] t[b],
                forall|i: int| 0 <= i < s.len() ==> (#[trigger] s[i]).well_formed(),
                s.len() == n,
                slot <= count,
                windows@.map_values(|w: Window| w@) == arranged_upto(s, t, layout, slot as int),
                changed@ == changed_ids(s, t, layout, slot as nat),
            decreases count - slot,
        {
            let idx = active[slot];
            let rect = rects[slot];
            let h = rect.size.h - DECORATION_HEIGHT;
            let client = Size {
                w: if rect.size.w >= 1 { rect.size.w } else { 1 },
                h: if h >= 1 { h } else { 1 },
            };
            let ghost cur = windows@.map_values(|w: Window| w@);
            proof {
                assert(t[slot as int] == idx as int);
                assert(!(exists|k: int| 0 <= k < slot && k < t.len() && t[k] == idx as int));
                assert(cur[idx as int] == s[idx as int]);
                assert(cur[idx as int] == windows@[idx as int]@);
            }
            let did = windows[idx].set_geometry(rect.loc, client);
            if did {
                changed.push(windows[idx].id());
            }
            proof {
                let next = arranged_upto(s, t, layout, slot as int + 1);
                let now = windows@.map_values(|w: Window| w@);
                assert(client == client_size(layout[slot as int]));
                assert forall|j: int| 0 <= j < s.len() implies #[trigger] now[j] == next[j] by {
                    if j == idx as int {
                        assert(exists|k: int| 0 <= k < slot + 1 && k < t.len() && t[k] == j);
                        let k = slot_of(t, j);
                        assert(k == slot as int) by {
                            if k < slot as int {
                                assert(t[k] < t[slot as int]);
                            } else if k > slot as int {
                                assert(t[slot as int] < t[k]);
                            }
                        }
                    } else {
                        assert(now[j] == cur[j]);
                        if exists|k: int| 0 <= k < slot + 1 && k < t.len() && t[k] == j {
                            let k = choose|k: int| 0 <= k < slot + 1 && k < t.len() && t[k] == j;
                            assert(k != slot as int);
                            assert(exists|k: int| 0 <= k < slot && k < t.len() && t[k] == j);
                        }
                    }
                }
                assert(now =~= next);
                assert(changed@ =~= changed_ids(s, t, layout, slot as nat + 1));
            }
            slot += 1;
        }
        changed
    }

    /// Whether laying out `count` windows on `output` stays within `i32`
    /// arithmetic (see [`LayoutEngine::fits_for`]).
    pub fn fits(&self, count: usize, output: Size) -> (r: bool)
        ensures
            r == self.fits_for(count as nat, output),
    {
        if count == 0 {
            return true;
        }
        match self.mode {
            LayoutMode::MasterStack { ratio } => master_stack_fits_exec(count, output, self.gaps, ratio),
            LayoutMode::Grid => grid_fits_exec(count, output, self.gaps),
        }
    }
}

fn fits_exec(x: i128) -> (r: bool)
    ensures
        r == fits(x as int),
{
    x >= i32::MIN as i128 && x <= i32::MAX as i128
}

fn max_exec(a: i128, b: i128) -> (r: i128)
    ensures
        r == imax(a as int, b as int),
{
    if a >= b {
        a
    } else {
        b
    }
}

fn tdiv_exec(a: i128, b: i128) -> (r: i128)
    requires
        b >= 1,
        -0x1_0000_0000_0000 <= a <= 0x1_0000_0000_0000,
    ensures
        r == tdiv(a as int, b as int),
{
    proof {
        lemma_tdiv_bound(a as int, b as int);
    }
    if a >= 0 {
        a / b
    } else {
        -((-a) / b)
    }
}

fn outer_gaps_fit_exec(output: Size, outer: i32) -> (r: bool)
    ensures
        r == outer_gaps_fit(output, outer),
{
    let o2 = 2 * (outer as i128);
    fits_exec(o2) && fits_exec(output.w as i128 - o2) && fits_exec(output.h as i128 - o2)
}

#[verifier::loop_isolation(false)]
fn master_stack_fits_exec(count: usize, output: Size, gaps: Gaps, ratio: u32) -> (r: bool)
    requires
        count >= 1,
    ensures
        r == master_stack_fits(count as nat, output, gaps, ratio),
{
    if ratio > 100 || !outer_gaps_fit_exec(output, gaps.outer) {
        return false;
    }
    if count == 1 {
        return true;
    }
    let a = apply_outer_gaps(output, gaps.outer);
    proof {
        lemma_master_width(a.size.w as int, ratio);
    }
    let w = a.size.w as i128;
    let h = a.size.h as i128;
    let inner = gaps.inner as i128;
    let mw = w * (ratio as i128) / 100;
    let sc_u = count - 1;
    if sc_u > i32::MAX as usize {
        return false;
    }
    let sc = sc_u as i128;
    let m = max_exec(sc - 1, 0);
    proof {
        assert(-0x1_0000_0000_0000_0000 <= inner * m <= 0x1_0000_0000_0000_0000) by (nonlinear_arith)
            requires
                i32::MIN <= inner <= i32::MAX,
                0 <= m <= i32::MAX,
        ;
    }
    let tih = inner * m;
    if !(fits_exec(w - mw - inner) && fits_exec(a.loc.x as i128 + mw) && fits_exec(
        a.loc.x as i128 + mw + inner,
    ) && fits_exec(tih) && fits_exec(h - tih)) {
        return false;
    }
    let sh = max_exec(tdiv_exec(h - tih, sc), 1);
    proof {
        lemma_tdiv_bound((h - tih) as int, sc as int);
    }
    let step = sh + inner;
    if !fits_exec(step) {
        return false;
    }
    let ghost sh_s = stack_height(a.size.h as int, gaps.inner as int, sc as int);
    assert(sh == sh_s);
    let mut i: i128 = 0;
    while i < sc
        invariant
            0 <= i <= sc,
            sc == count - 1,
            sc <= i32::MAX,
            fits(step as int),
            step == sh_s + gaps.inner,
            forall|j: int|
                0 <= j < i ==> fits(#[trigger] (j * (sh_s + gaps.inner))) && fits(
                    a.loc.y + j * (sh_s + gaps.inner),
                ),
        decreases sc - i,
    {
        proof {
            assert(-(i32::MAX as int) * 0x1_0000_0000 <= i * step <= (i32::MAX as int) * 0x1_0000_0000)
                by (nonlinear_arith)
                requires
                    0 <= i <= i32::MAX,
                    fits(step as int),
            ;
        }
        let y = i * step;
        if !(fits_exec(y) && fits_exec(a.loc.y as i128 + y)) {
            proof {
                let j = i as int;
                assert(!(fits(#[trigger] (j * (sh_s + gaps.inner))) && fits(
                    a.loc.y + j * (sh_s + gaps.inner),
                )));
            }
            return false;
        }
        i = i + 1;
    }
    true
}

#[verifier::loop_isolation(false)]
fn grid_fits_exec(count: usize, output: Size, gaps: Gaps) -> (r: bool)
    requires
        count >= 1,
    ensures
        r == grid_fits(count as nat, output, gaps),
{
    if count > i32::MAX as usize || !outer_gaps_fit_exec(output, gaps.outer) {
        return false;
    }
    let a = apply_outer_gaps(output, gaps.outer);
    let c_u = ceil_sqrt_exec(count);
    let r_u = (count + c_u - 1) / c_u;
    proof {
        assert(count + c_u - 1 <= count * c_u) by (nonlinear_arith)
            requires
                c_u >= 1,
                count >= 1,
        ;
        vstd::arithmetic::div_mod::lemma_div_is_ordered((count + c_u - 1) as int, (count * c_u) as int, c_u as int);
        vstd::arithmetic::div_mod::lemma_div_multiples_vanish(count as int, c_u as int);
        assert((count * c_u) as int == (c_u * count) as int) by (nonlinear_arith);
        assert(r_u <= count);
        vstd::arithmetic::div_mod::lemma_div_is_ordered(c_u as int, (count + c_u - 1) as int, c_u as int);
        vstd::arithmetic::div_mod::lemma_div_by_self(c_u as int);
    }
    let c = c_u as i128;
    let rows = r_u as i128;
    let inner = gaps.inner as i128;
    let mc = max_exec(c - 1, 0);
    let mr = max_exec(rows - 1, 0);
    proof {
        assert(-0x1_0000_0000_0000_0000 <= inner * mc <= 0x1_0000_0000_0000_0000) by (nonlinear_arith)
            requires
                i32::MIN <= inner <= i32::MAX,
                0 <= mc <= i32::MAX,
        ;
        assert(-0x1_0000_0000_0000_0000 <= inner * mr <= 0x1_0000_0000_0000_0000) by (nonlinear_arith)
            requires
                i32::MIN <= inner <= i32::MAX,
                0 <= mr <= i32::MAX,
        ;
    }
    let tiw = inner * mc;
    let tih = inner * mr;
    if !(fits_exec(tiw) && fits_exec(tih) && fits_exec(a.size.w as i128 - tiw) && fits_exec(
        a.size.h as i128 - tih,
    )) {
        return false;
    }
    let cw = max_exec(tdiv_exec(a.size.w as i128 - tiw, c), 1);
    let ch = max_exec(tdiv_exec(a.size.h as i128 - tih, rows), 1);
    proof {
        lemma_tdiv_bound((a.size.w - tiw) as int, c as int);
        lemma_tdiv_bound((a.size.h - tih) as int, rows as int);
    }
    if !(fits_exec(cw + inner) && fits_exec(ch + inner)) {
        return false;
    }
    let ghost cw_s = grid_cell_w(count as nat, output, gaps);
    let ghost ch_s = grid_cell_h(count as nat, output, gaps);
    assert(cw == cw_s && ch == ch_s);
    let n = count as i128;
    let mut i: i128 = 0;
    while i < n
        invariant
            0 <= i <= n,
            n == count,
            n <= i32::MAX,
            c == grid_columns(count as nat),
            c >= 1,
            c <= n,
            fits(cw + inner),
            fits(ch + inner),
            cw == cw_s,
            ch == ch_s,
            inner == gaps.inner,
            a == outer_area(output, gaps.outer),
            forall|j: int|
                0 <= j < i ==> {
                    &&& fits(#[trigger] ((j % (c as int)) * (cw_s + gaps.inner)))
                    &&& fits(a.loc.x + (j % (c as int)) * (cw_s + gaps.inner))
                    &&& fits((j / (c as int)) * (ch_s + gaps.inner))
                    &&& fits(a.loc.y + (j / (c as int)) * (ch_s + gaps.inner))
                },
        decreases n - i,
    {
        let col = i % c;
        let row = i / c;
        proof {
            vstd::arithmetic::div_mod::lemma_mod_bound(i as int, c as int);
            vstd::arithmetic::div_mod::lemma_div_is_ordered_by_denominator(i as int, 1, c as int);
            vstd::arithmetic::div_mod::lemma_div_pos_is_pos(i as int, c as int);
            assert(-(i32::MAX as int) * 0x1_0000_0000 <= col * (cw + inner) <= (i32::MAX as int) * 0x1_0000_0000)
                by (nonlinear_arith)
                requires
                    0 <= col <= i32::MAX,
                    fits(cw + inner),
            ;
            assert(-(i32::MAX as int) * 0x1_0000_0000 <= row * (ch + inner) <= (i32::MAX as int) * 0x1_0000_0000)
                by (nonlinear_arith)
                requires
                    0 <= row <= i32::MAX,
                    fits(ch + inner),
            ;
        }
        let x = col * (cw + inner);
        let y = row * (ch + inner);
        if !(fits_exec(x) && fits_exec(a.loc.x as i128 + x) && fits_exec(y) && fits_exec(
            a.loc.y as i128 + y,
        )) {
            proof {
                let j = i as int;
                assert(!({
                    &&& fits(#[trigger] ((j % (c as int)) * (cw_s + gaps.inner)))
                    &&& fits(a.loc.x + (j % (c as int)) * (cw_s + gaps.inner))
                    &&& fits((j / (c as int)) * (ch_s + gaps.inner))
                    &&& fits(a.loc.y + (j / (c as int)) * (ch_s + gaps.inner))
                }));
            }
            return false;
        }
        i = i + 1;
    }
    true
}

/// Whether two rectangles share no point.
pub open spec fn rects_disjoint(a: Rect, b: Rect) -> bool {
    ||| a.loc.x + a.size.w <= b.loc.x
    ||| b.loc.x + b.size.w <= a.loc.x
    ||| a.loc.y + a.size.h <= b.loc.y
    ||| b.loc.y + b.size.h <= a.loc.y
}

proof fn lemma_step(a: int, b: int, step: int, size: int)
    requires
        0 <= a < b,
        0 <= size <= step,
    ensures
        a * step + size <= b * step,
{
    assert(a * step + step <= b * step) by (nonlinear_arith)
        requires
            0 <= a < b,
            0 <= step,
    ;
}

/// With a non-negative inner gap, no two grid cells overlap.
pub proof fn lemma_grid_cells_disjoint(count: nat, output: Size, gaps: Gaps, i: int, j: int)
    requires
        grid_fits(count, output, gaps),
        gaps.inner >= 0,
        0 <= i < j < count,
    ensures
        rects_disjoint(grid_layout(count, output, gaps)[i], grid_layout(count, output, gaps)[j]),
{
    let l = grid_layout(count, output, gaps);
    let c = grid_columns(count);
    lemma_ceil_sqrt_exists(count);
    assert(is_ceil_sqrt(count as int, c));
    assert(c >= 1) by {
        if c == 0 {
            assert(c * c == 0);
        }
    }
    let cw = grid_cell_w(count, output, gaps);
    let ch = grid_cell_h(count, output, gaps);
    let a = outer_area(output, gaps.outer);
    let r = grid_rows(count);
    lemma_tdiv_bound(a.size.w - gaps.inner * imax(c - 1, 0), c);
    let (ci, cj, ri, rj) = (i % c, j % c, i / c, j / c);
    assert(fits(#[trigger] ((i % c) * (cw + gaps.inner))) && fits(a.loc.x + (i % c) * (cw + gaps.inner)));
    assert(fits(#[trigger] ((j % c) * (cw + gaps.inner))) && fits(a.loc.x + (j % c) * (cw + gaps.inner)));
    vstd::arithmetic::div_mod::lemma_fundamental_div_mod(i, c);
    vstd::arithmetic::div_mod::lemma_fundamental_div_mod(j, c);
    vstd::arithmetic::div_mod::lemma_mod_bound(i, c);
    vstd::arithmetic::div_mod::lemma_mod_bound(j, c);
    vstd::arithmetic::div_mod::lemma_div_pos_is_pos(i, c);
    vstd::arithmetic::div_mod::lemma_div_is_ordered(i, j, c);
    assert(l[i].loc.x == a.loc.x + ci * (cw + gaps.inner));
    assert(l[j].loc.x == a.loc.x + cj * (cw + gaps.inner));
    assert(l[i].loc.y == a.loc.y + ri * (ch + gaps.inner));
    assert(l[j].loc.y == a.loc.y + rj * (ch + gaps.inner));
    assert(l[i].size.w == cw && l[j].size.w == cw && l[i].size.h == ch && l[j].size.h == ch);
    if ci < cj {
        lemma_step(ci, cj, cw + gaps.inner, cw);
    } else if cj < ci {
        lemma_step(cj, ci, cw + gaps.inner, cw);
    } else {
        assert(ri != rj) by {
            if ri == rj {
                assert(i == c * ri + ci);
                assert(j == c * rj + cj);
            }
        }
        lemma_step(ri, rj, ch + gaps.inner, ch);
    }
}

/// With a non-negative inner gap, no two areas of the master/stack layout
/// overlap, and the stack starts one inner gap right of the master column.
pub proof fn lemma_master_stack_disjoint(count: nat, output: Size, gaps: Gaps, ratio: u32, i: int, j: int)
    requires
        master_stack_fits(count, output, gaps, ratio),
        gaps.inner >= 0,
        0 <= i < j < count,
    ensures
        rects_disjoint(
            master_stack_layout(count, output, gaps, ratio)[i],
            master_stack_layout(count, output, gaps, ratio)[j],
        ),
        master_stack_layout(count, output, gaps, ratio)[j].loc.x == master_stack_layout(
            count,
            output,
            gaps,
            ratio,
        )[0].loc.x + master_stack_layout(count, output, gaps, ratio)[0].size.w + gaps.inner,
{
    let l = master_stack_layout(count, output, gaps, ratio);
    let a = outer_area(output, gaps.outer);
    lemma_master_width(a.size.w as int, ratio);
    let sc = count - 1;
    let inner = gaps.inner as int;
    let sh = stack_height(a.size.h as int, inner, sc);
    lemma_tdiv_bound(a.size.h - inner * imax(sc - 1, 0), sc);
    if i > 0 {
        assert(fits(#[trigger] ((i - 1) * (sh + inner))) && fits(a.loc.y + (i - 1) * (sh + inner)));
        assert(fits(#[trigger] ((j - 1) * (sh + inner))) && fits(a.loc.y + (j - 1) * (sh + inner)));
        lemma_step(i - 1, j - 1, sh + inner, sh);
    }
}

/// How many windows of `s` take a tile on workspace `ws`: those that lie
/// there and are neither minimized, floating (by themselves or by a rule)
/// nor being dragged.
pub open spec fn tile_count(s: Seq<WindowView>, ws: usize) -> nat
    decreases s.len(),
{
    if s.len() == 0 {
        0
    } else {
        let w = s.last();
        tile_count(s.drop_last(), ws) + if w.workspace == ws && !w.minimized && !w.floating
            && !w.forced_floating && !w.dragging {
            1nat
        } else {
            0nat
        }
    }
}

proof fn lemma_tile_slots(s: Seq<WindowView>, ws: usize)
    ensures
        tiled_indices(s, ws).len() == tile_count(s, ws),
        forall|k: int|
            0 <= k < tiled_indices(s, ws).len() ==> tile_count(
                s.take(#[trigger] tiled_indices(s, ws)[k]),
                ws,
            ) == k,
    decreases s.len(),
{
    if s.len() > 0 {
        let t = s.drop_last();
        lemma_tile_slots(t, ws);
        lemma_tiled_indices(t, ws);
        let q = tiled_indices(s, ws);
        let r = tiled_indices(t, ws);
        assert forall|k: int| 0 <= k < q.len() implies tile_count(s.take(#[trigger] q[k]), ws) == k by {
            if k < r.len() {
                assert(q[k] == r[k]);
                assert(s.take(r[k]) =~= t.take(r[k]));
            } else {
                assert(q[k] == s.len() - 1);
                assert(s.take(s.len() - 1) =~= t);
            }
        }
    }
}

/// Arranging gives tiles only to the windows on the workspace that are
/// neither minimized, floating nor being dragged, and leaves every other
/// window as it is. The areas are computed for the number of windows that
/// take a tile, and the window with `n` such windows below it gets the
/// `n`-th area, its client part below the decoration.
pub proof fn lemma_arranged_tiles(layout: LayoutEngine, s: Seq<WindowView>, ws: usize, output: Size)
    ensures
        layout.arranged(s, ws, output).len() == s.len(),
        forall|i: int|
            0 <= i < s.len() && ((#[trigger] s[i]).workspace != ws || s[i].minimized || s[i].floating
                || s[i].forced_floating || s[i].dragging) ==> layout.arranged(s, ws, output)[i] == s[i],
        forall|i: int|
            0 <= i < s.len() && (#[trigger] s[i]).workspace == ws && !s[i].minimized && !s[i].floating
                && !s[i].forced_floating && !s[i].dragging ==> {
                let rect = layout.layout(tile_count(s, ws), output)[tile_count(s.take(i), ws) as int];
                &&& layout.arranged(s, ws, output)[i].location == rect.loc
                &&& layout.arranged(s, ws, output)[i].size == client_size(rect)
            },
{
    let t = tiled_indices(s, ws);
    let rects = layout.layout(t.len(), output);
    let a = layout.arranged(s, ws, output);
    lemma_tiled_indices(s, ws);
    lemma_tile_slots(s, ws);
    assert forall|i: int|
        0 <= i < s.len() && ((#[trigger] s[i]).workspace != ws || s[i].minimized || s[i].floating
            || s[i].forced_floating || s[i].dragging) implies a[i] == s[i] by {
        if exists|k: int| 0 <= k < t.len() && k < t.len() && t[k] == i {
            let k = choose|k: int| 0 <= k < t.len() && k < t.len() && t[k] == i;
            assert(tiled(s[t[k]], ws));
        }
    }
    assert forall|i: int|
        0 <= i < s.len() && (#[trigger] s[i]).workspace == ws && !s[i].minimized && !s[i].floating
            && !s[i].forced_floating && !s[i].dragging implies {
            let rect = layout.layout(tile_count(s, ws), output)[tile_count(s.take(i), ws) as int];
            &&& a[i].location == rect.loc
            &&& a[i].size == client_size(rect)
        } by {
        assert(tiled(s[i], ws));
        let k = choose|k: int| 0 <= k < t.len() && t[k] == i;
        assert(0 <= k < t.len() && k < t.len() && t[k] == i);
        let j = slot_of(t, i);
        if j != k {
            if j < k {
                assert(t[j] < t[k]);
            } else {
                assert(t[k] < t[j]);
            }
        }
        assert(tile_count(s.take(t[k]), ws) == k);
        assert(a[i] == s[i].with_geometry(rects[k].loc, client_size(rects[k])));
    }
}

/// Lists of the same length whose windows are tiled alike have the same
/// tiled positions.
proof fn lemma_same_tiled_indices(a: Seq<WindowView>, b: Seq<WindowView>, ws: usize)
    requires
        a.len() == b.len(),
        forall|i: int| 0 <= i < a.len() ==> tiled(#[trigger] a[i], ws) == tiled(b[i], ws),
    ensures
        tiled_indices(a, ws) == tiled_indices(b, ws),
    decreases a.len(),
{
    if a.len() > 0 {
        let (a1, b1) = (a.drop_last(), b.drop_last());
        assert forall|i: int| 0 <= i < a1.len() implies tiled(#[trigger] a1[i], ws) == tiled(b1[i], ws) by {
            assert(a1[i] == a[i] && b1[i] == b[i]);
        }
        lemma_same_tiled_indices(a1, b1, ws);
        assert(tiled(a.last(), ws) == tiled(b.last(), ws)) by {
            assert(a.last() == a[a.len() - 1] && b.last() == b[b.len() - 1]);
        }
    }
}

/// No slot among the first `n` is reported where every window already has
/// its area.
proof fn lemma_nothing_changed(s: Seq<WindowView>, t: Seq<int>, rects: Seq<Rect>, n: nat)
    requires
        n <= t.len(),
        forall|k: int|
            0 <= k < n ==> s[#[trigger] t[k]].location == rects[k].loc && s[t[k]].size
                == client_size(rects[k]),
    ensures
        changed_ids(s, t, rects, n).len() == 0,
    decreases n,
{
    if n > 0 {
        lemma_nothing_changed(s, t, rects, (n - 1) as nat);
        assert(s[t[n - 1]].location == rects[n - 1].loc);
    }
}

/// Arranging the windows a second time changes nothing: the windows stay as
/// the first arrangement left them, and none is reported as changed.
pub proof fn lemma_arrange_idempotent(layout: LayoutEngine, s: Seq<WindowView>, ws: usize, output: Size)
    ensures
        layout.arranged(layout.arranged(s, ws, output), ws, output) == layout.arranged(s, ws, output),
        layout.changed(layout.arranged(s, ws, output), ws, output).len() == 0,
{
    let t = tiled_indices(s, ws);
    let rects = layout.layout(t.len(), output);
    let n = t.len() as int;
    let s2 = layout.arranged(s, ws, output);
    lemma_tiled_indices(s, ws);
    assert forall|i: int| 0 <= i < s.len() implies tiled(#[trigger] s[i], ws) == tiled(s2[i], ws) by {
        if exists|k: int| 0 <= k < n && k < t.len() && t[k] == i {
            let k = slot_of(t, i);
            assert(s2[i] == s[i].with_geometry(rects[k].loc, client_size(rects[k])));
        } else {
            assert(s2[i] == s[i]);
        }
    }
    lemma_same_tiled_indices(s, s2, ws);
    assert(tiled_indices(s2, ws) == t);
    let s3 = layout.arranged(s2, ws, output);
    assert forall|i: int| 0 <= i < s2.len() implies #[trigger] s3[i] == s2[i] by {
        if exists|k: int| 0 <= k < n && k < t.len() && t[k] == i {
            let k = slot_of(t, i);
            assert(s2[i] == s[i].with_geometry(rects[k].loc, client_size(rects[k])));
            assert(s3[i] == s2[i].with_geometry(rects[k].loc, client_size(rects[k])));
        }
    }
    assert(s3 =~= s2);
    assert forall|k: int| 0 <= k < n implies s2[#[trigger] t[k]].location == rects[k].loc && s2[t[k]].size
        == client_size(rects[k]) by {
        let i = t[k];
        assert(0 <= k < n && k < t.len() && t[k] == i);
        let j = slot_of(t, i);
        if j != k {
            if j < k {
                assert(t[j] < t[k]);
            } else {
                assert(t[k] < t[j]);
            }
        }
        assert(s2[i] == s[i].with_geometry(rects[k].loc, client_size(rects[k])));
    }
    lemma_nothing_changed(s2, t, rects, t.len());
}

} // verus!
