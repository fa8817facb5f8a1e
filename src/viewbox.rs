//! Bounding spans and view-box rescaling of command sequences.
use crate::command::Command;
use vstd::prelude::*;

verus! {

/// Bound on the coordinates that the geometry functions take, in counts.
pub const COORD_LIMIT: i128 = 4_611_686_018_427_387_904;

/// Bound on a target size: twice `COORD_LIMIT`, the widest span of bounded coordinates.
pub const SPAN_LIMIT: i128 = 9_223_372_036_854_775_808;

/// A source frame: its minimum corner and its size.
#[derive(Clone, Copy, Debug)]
pub struct ViewBox {
    pub min_x: i128,
    pub min_y: i128,
    pub width: i128,
    pub height: i128,
}

/// The x coordinates of a command, in field order (radii are no positions).
pub open spec fn xs_of(c: Command) -> Seq<i128> {
    match c {
        Command::MoveTo { x, y } => seq![x],
        Command::LineTo { x, y } => seq![x],
        Command::CurveTo { x1, y1, x2, y2, x, y } => seq![x1, x2, x],
        Command::ClosePath => seq![],
        Command::SmoothCurveTo { cx, cy, x2, y2, x, y } => seq![cx, x2, x],
        Command::QuadraticBezierCurveTo { x1, y1, x, y } => seq![x1, x],
        Command::SmoothQuadraticBezierCurveTo { cx, cy, x, y } => seq![cx, x],
        Command::EllipticalArc { px, py, x, y, .. } => seq![px, x],
    }
}

/// The y coordinates of a command, in field order.
pub open spec fn ys_of(c: Command) -> Seq<i128> {
    match c {
        Command::MoveTo { x, y } => seq![y],
        Command::LineTo { x, y } => seq![y],
        Command::CurveTo { x1, y1, x2, y2, x, y } => seq![y1, y2, y],
        Command::ClosePath => seq![],
        Command::SmoothCurveTo { cx, cy, x2, y2, x, y } => seq![cy, y2, y],
        Command::QuadraticBezierCurveTo { x1, y1, x, y } => seq![y1, y],
        Command::SmoothQuadraticBezierCurveTo { cx, cy, x, y } => seq![cy, y],
        Command::EllipticalArc { px, py, x, y, .. } => seq![py, y],
    }
}

/// Every x coordinate of a command sequence, in order.
pub open spec fn all_xs(cmds: Seq<Command>) -> Seq<i128>
    decreases cmds.len(),
{
    if cmds.len() == 0 {
        seq![]
    } else {
        all_xs(cmds.drop_last()) + xs_of(cmds.last())
    }
}

/// Every y coordinate of a command sequence, in order.
pub open spec fn all_ys(cmds: Seq<Command>) -> Seq<i128>
    decreases cmds.len(),
{
    if cmds.len() == 0 {
        seq![]
    } else {
        all_ys(cmds.drop_last()) + ys_of(cmds.last())
    }
}

/// The least of `0` and the values.
pub open spec fn low(vals: Seq<i128>) -> int
    decreases vals.len(),
{
    if vals.len() == 0 {
        0
    } else {
        let m = low(vals.drop_last());
        if vals.last() < m {
            vals.last() as int
        } else {
            m
        }
    }
}

/// The greatest of `0` and the values.
pub open spec fn high(vals: Seq<i128>) -> int
    decreases vals.len(),
{
    if vals.len() == 0 {
        0
    } else {
        let m = high(vals.drop_last());
        if vals.last() > m {
            vals.last() as int
        } else {
            m
        }
    }
}

/// The span of a command sequence on each axis, the origin included.
pub open spec fn dims(cmds: Seq<Command>) -> (int, int) {
    (high(all_xs(cmds)) - low(all_xs(cmds)), high(all_ys(cmds)) - low(all_ys(cmds)))
}

pub open spec fn within(vals: Seq<i128>, b: int) -> bool {
    forall|j: int| 0 <= j < vals.len() ==> -b <= #[trigger] vals[j] <= b
}

/// Every coordinate of every command lies within `COORD_LIMIT`.
pub open spec fn cmd_in_range(c: Command) -> bool {
    &&& within(xs_of(c), COORD_LIMIT as int)
    &&& within(ys_of(c), COORD_LIMIT as int)
    &&& match c {
        Command::EllipticalArc { rx, ry, .. } => -COORD_LIMIT <= rx <= COORD_LIMIT && -COORD_LIMIT
            <= ry <= COORD_LIMIT,
        _ => true,
    }
}

pub open spec fn path_in_range(cmds: Seq<Command>) -> bool {
    forall|j: int| 0 <= j < cmds.len() ==> cmd_in_range(#[trigger] cmds[j])
}

/// Division rounding toward zero, as integer division does.
pub open spec fn div_trunc(a: int, b: int) -> int {
    if b > 0 {
        if a >= 0 {
            a / b
        } else {
            -((-a) / b)
        }
    } else {
        if a >= 0 {
            -(a / (-b))
        } else {
            (-a) / (-b)
        }
    }
}

/// No command is an arc: the geometry functions take flattened commands,
/// since an arc's extent and its image under a non-uniform scale are only
/// known once it is flattened.
pub open spec fn no_arcs(cmds: Seq<Command>) -> bool {
    forall|j: int| 0 <= j < cmds.len() ==> !(#[trigger] cmds[j] is EllipticalArc)
}

/// A coordinate mapped from a frame starting at `min` of size `size` onto `target`.
pub open spec fn rescale(v: int, min: int, target: int, size: int) -> int {
    div_trunc((v - min) * target, size)
}

/// A command mapped into the frame `vb`, onto a target of size `w` by `h`.
/// An arc is left as it is: the mapping applies to flattened commands.
pub open spec fn scaled(vb: ViewBox, c: Command, w: int, h: int) -> Command {
    let fx = |v: i128| rescale(v as int, vb.min_x as int, w, vb.width as int) as i128;
    let fy = |v: i128| rescale(v as int, vb.min_y as int, h, vb.height as int) as i128;
    match c {
        Command::MoveTo { x, y } => Command::MoveTo { x: fx(x), y: fy(y) },
        Command::LineTo { x, y } => Command::LineTo { x: fx(x), y: fy(y) },
        Command::CurveTo { x1, y1, x2, y2, x, y } => Command::CurveTo {
            x1: fx(x1),
            y1: fy(y1),
            x2: fx(x2),
            y2: fy(y2),
            x: fx(x),
            y: fy(y),
        },
        Command::ClosePath => Command::ClosePath,
        Command::SmoothCurveTo { cx, cy, x2, y2, x, y } => Command::SmoothCurveTo {
            cx: fx(cx),
            cy: fy(cy),
            x2: fx(x2),
            y2: fy(y2),
            x: fx(x),
            y: fy(y),
        },
        Command::QuadraticBezierCurveTo { x1, y1, x, y } => Command::QuadraticBezierCurveTo {
            x1: fx(x1),
            y1: fy(y1),
            x: fx(x),
            y: fy(y),
        },
        Command::SmoothQuadraticBezierCurveTo { cx, cy, x, y } =>
            Command::SmoothQuadraticBezierCurveTo { cx: fx(cx), cy: fy(cy), x: fx(x), y: fy(y) },
        Command::EllipticalArc { .. } => c,
    }
}

/// A frame whose corner and size can map coordinates within `COORD_LIMIT`.
pub open spec fn frame_ok(vb: ViewBox) -> bool {
    &&& -COORD_LIMIT <= vb.min_x <= COORD_LIMIT
    &&& -COORD_LIMIT <= vb.min_y <= COORD_LIMIT
    &&& vb.width != 0 && vb.width > i128::MIN
    &&& vb.height != 0 && vb.height > i128::MIN
}

pub open spec fn target_ok(w: int, h: int) -> bool {
    -SPAN_LIMIT <= w <= SPAN_LIMIT && -SPAN_LIMIT <= h <= SPAN_LIMIT
}

fn div_toward_zero(a: i128, b: i128) -> (r: i128)
    requires
        b != 0,
        b > i128::MIN,
        a > i128::MIN,
    ensures
        r == div_trunc(a as int, b as int),
{
    let m: i128 = if b > 0 {
        b
    } else {
        -b
    };
    let q: i128 = if a >= 0 {
        a / m
    } else {
        (-a) / m
    };
    if (a >= 0) == (b > 0) {
        q
    } else {
        -q
    }
}

impl ViewBox {
    pub fn new(min_x: i128, min_y: i128, width: i128, height: i128) -> (r: Self)
        ensures
            r.min_x == min_x,
            r.min_y == min_y,
            r.width == width,
            r.height == height,
    {
        Self { min_x, min_y, width, height }
    }

    fn scale_x(&self, x: i128, w: i128) -> (r: i128)
        requires
            frame_ok(*self),
            -COORD_LIMIT <= x <= COORD_LIMIT,
            -SPAN_LIMIT <= w <= SPAN_LIMIT,
        ensures
            r == rescale(x as int, self.min_x as int, w as int, self.width as int),
    {
        let d = x - self.min_x;
        assert(-SPAN_LIMIT * SPAN_LIMIT <= d * w <= SPAN_LIMIT * SPAN_LIMIT) by (nonlinear_arith)
            requires
                -SPAN_LIMIT <= d <= SPAN_LIMIT,
                -SPAN_LIMIT <= w <= SPAN_LIMIT,
        ;
        div_toward_zero(d * w, self.width)
    }

    fn scale_y(&self, y: i128, h: i128) -> (r: i128)
        requires
            frame_ok(*self),
            -COORD_LIMIT <= y <= COORD_LIMIT,
            -SPAN_LIMIT <= h <= SPAN_LIMIT,
        ensures
            r == rescale(y as int, self.min_y as int, h as int, self.height as int),
    {
        let d = y - self.min_y;
        assert(-SPAN_LIMIT * SPAN_LIMIT <= d * h <= SPAN_LIMIT * SPAN_LIMIT) by (nonlinear_arith)
            requires
                -SPAN_LIMIT <= d <= SPAN_LIMIT,
                -SPAN_LIMIT <= h <= SPAN_LIMIT,
        ;
        div_toward_zero(d * h, self.height)
    }

    /// `cmd` mapped into this frame, onto a target of size `w` by `h`.
    pub fn scale_cmd(&self, cmd: &Command, w: i128, h: i128) -> (r: Command)
        requires
            frame_ok(*self),
            cmd_in_range(*cmd),
            !(*cmd is EllipticalArc),
            target_ok(w as int, h as int),
        ensures
            r == scaled(*self, *cmd, w as int, h as int),
    {
        match *cmd {
            Command::MoveTo { x, y } => {
                assert(xs_of(*cmd)[0] == x && ys_of(*cmd)[0] == y);
                Command::MoveTo { x: self.scale_x(x, w), y: self.scale_y(y, h) }
            },
            Command::LineTo { x, y } => {
                assert(xs_of(*cmd)[0] == x && ys_of(*cmd)[0] == y);
                Command::LineTo { x: self.scale_x(x, w), y: self.scale_y(y, h) }
            },
            Command::CurveTo { x1, y1, x2, y2, x, y } => {
                assert(xs_of(*cmd)[0] == x1 && xs_of(*cmd)[1] == x2 && xs_of(*cmd)[2] == x);
                assert(ys_of(*cmd)[0] == y1 && ys_of(*cmd)[1] == y2 && ys_of(*cmd)[2] == y);
                Command::CurveTo {
                    x1: self.scale_x(x1, w),
                    y1: self.scale_y(y1, h),
                    x2: self.scale_x(x2, w),
                    y2: self.scale_y(y2, h),
                    x: self.scale_x(x, w),
                    y: self.scale_y(y, h),
                }
            },
            Command::ClosePath => Command::ClosePath,
            Command::SmoothCurveTo { cx, cy, x2, y2, x, y } => {
                assert(xs_of(*cmd)[0] == cx && xs_of(*cmd)[1] == x2 && xs_of(*cmd)[2] == x);
                assert(ys_of(*cmd)[0] == cy && ys_of(*cmd)[1] == y2 && ys_of(*cmd)[2] == y);
                Command::SmoothCurveTo {
                    cx: self.scale_x(cx, w),
                    cy: self.scale_y(cy, h),
                    x2: self.scale_x(x2, w),
                    y2: self.scale_y(y2, h),
                    x: self.scale_x(x, w),
                    y: self.scale_y(y, h),
                }
            },
            Command::QuadraticBezierCurveTo { x1, y1, x, y } => {
                assert(xs_of(*cmd)[0] == x1 && xs_of(*cmd)[1] == x);
                assert(ys_of(*cmd)[0] == y1 && ys_of(*cmd)[1] == y);
                Command::QuadraticBezierCurveTo {
                    x1: self.scale_x(x1, w),
                    y1: self.scale_y(y1, h),
                    x: self.scale_x(x, w),
                    y: self.scale_y(y, h),
                }
            },
            Command::SmoothQuadraticBezierCurveTo { cx, cy, x, y } => {
                assert(xs_of(*cmd)[0] == cx && xs_of(*cmd)[1] == x);
                assert(ys_of(*cmd)[0] == cy && ys_of(*cmd)[1] == y);
                Command::SmoothQuadraticBezierCurveTo {
                    cx: self.scale_x(cx, w),
                    cy: self.scale_y(cy, h),
                    x: self.scale_x(x, w),
                    y: self.scale_y(y, h),
                }
            },
            Command::EllipticalArc { .. } => *cmd,
        }
    }

    /// `path` mapped into this frame, onto a target of the path's own span.
    pub fn scale_path(&self, path: &[Command]) -> (r: Vec<Command>)
        requires
            frame_ok(*self),
            path_in_range(path@),
            no_arcs(path@),
        ensures
            r@.len() == path@.len(),
            forall|j: int|
                0 <= j < path@.len() ==> #[trigger] r@[j] == scaled(
                    *self,
                    path@[j],
                    dims(path@).0,
                    dims(path@).1,
                ),
    {
        let (w, h) = estimate_dimensions(path);
        let mut out: Vec<Command> = Vec::new();
        let mut i: usize = 0;
        while i < path.len()
            invariant
                i <= path@.len(),
                frame_ok(*self),
                path_in_range(path@),
                no_arcs(path@),
                w == dims(path@).0 && h == dims(path@).1,
                target_ok(w as int, h as int),
                out@.len() == i,
                forall|j: int|
                    0 <= j < i ==> #[trigger] out@[j] == scaled(*self, path@[j], w as int, h as int),
            decreases path@.len() - i,
        {
            let c = self.scale_cmd(&path[i], w, h);
            out.push(c);
            i = i + 1;
        }
        out
    }

    /// Maps `path` in place into this frame, onto a target of the path's own span.
    pub fn scale_path_mut(&self, path: &mut [Command])
        requires
            frame_ok(*self),
            path_in_range(old(path)@),
            no_arcs(old(path)@),
        ensures
            final(path)@.len() == old(path)@.len(),
            forall|j: int|
                0 <= j < old(path)@.len() ==> #[trigger] final(path)@[j] == scaled(
                    *self,
                    old(path)@[j],
                    dims(old(path)@).0,
                    dims(old(path)@).1,
                ),
    {
        let (w, h) = estimate_dimensions(path);
        let ghost before = path@;
        let mut i: usize = 0;
        while i < path.len()
            invariant
                i <= path@.len(),
                path@.len() == before.len(),
                frame_ok(*self),
                path_in_range(before),
                no_arcs(before),
                w == dims(before).0 && h == dims(before).1,
                target_ok(w as int, h as int),
                forall|j: int| i <= j < path@.len() ==> #[trigger] path@[j] == before[j],
                forall|j: int|
                    0 <= j < i ==> #[trigger] path@[j] == scaled(*self, before[j], w as int, h as int),
            decreases path@.len() - i,
        {
            let c = self.scale_cmd(&path[i], w, h);
            path[i] = c;
            i = i + 1;
        }
    }

    /// A cursor over `path` mapped into this frame, onto the path's own span.
    pub fn scale_iter(&self, path: &[Command]) -> (r: ScaledIterator)
        requires
            frame_ok(*self),
            path_in_range(path@),
            no_arcs(path@),
        ensures
            r.wf(),
            r.view_box == *self,
            r.dims == (dims(path@).0 as i128, dims(path@).1 as i128),
            r.path@ == path@,
            r.pos == 0,
    {
        let (w, h) = estimate_dimensions(path);
        ScaledIterator::new(*self, copy_commands(path), (w, h))
    }
}

/// Hands out the commands of a path one by one, mapped into a frame.
pub struct ScaledIterator {
    pub view_box: ViewBox,
    pub dims: (i128, i128),
    pub path: Vec<Command>,
    pub pos: usize,
}

impl ScaledIterator {
    pub open spec fn wf(&self) -> bool {
        &&& frame_ok(self.view_box)
        &&& path_in_range(self.path@)
        &&& no_arcs(self.path@)
        &&& target_ok(self.dims.0 as int, self.dims.1 as int)
        &&& self.pos <= self.path@.len()
    }

    fn new(view_box: ViewBox, path: Vec<Command>, dims: (i128, i128)) -> (r: Self)
        ensures
            r.view_box == view_box,
            r.path == path,
            r.dims == dims,
            r.pos == 0,
    {
        Self { view_box, dims, path, pos: 0 }
    }

    /// The next command mapped into the frame, or `None` after the last.
    pub fn next(&mut self) -> (r: Option<Command>)
        requires
            old(self).wf(),
        ensures
            final(self).wf(),
            final(self).view_box == old(self).view_box,
            final(self).dims == old(self).dims,
            final(self).path@ == old(self).path@,
            old(self).pos < old(self).path@.len() ==> {
                &&& final(self).pos == old(self).pos + 1
                &&& r == Some(
                    scaled(
                        old(self).view_box,
                        old(self).path@[old(self).pos as int],
                        old(self).dims.0 as int,
                        old(self).dims.1 as int,
                    ),
                )
            },
            old(self).pos >= old(self).path@.len() ==> final(self).pos == old(self).pos && r
                == None::<Command>,
    {
        if self.pos < self.path.len() {
            let c = self.view_box.scale_cmd(&self.path[self.pos], self.dims.0, self.dims.1);
            self.pos = self.pos + 1;
            Some(c)
        } else {
            None
        }
    }
}

proof fn lemma_low_high_bounds(vals: Seq<i128>, b: int)
    requires
        within(vals, b),
        b >= 0,
    ensures
        -b <= low(vals) <= 0,
        0 <= high(vals) <= b,
    decreases vals.len(),
{
    if vals.len() > 0 {
        lemma_low_high_bounds(vals.drop_last(), b);
        assert(-b <= vals[vals.len() - 1] <= b);
    }
}

proof fn lemma_all_within(cmds: Seq<Command>)
    requires
        path_in_range(cmds),
    ensures
        within(all_xs(cmds), COORD_LIMIT as int),
        within(all_ys(cmds), COORD_LIMIT as int),
    decreases cmds.len(),
{
    if cmds.len() > 0 {
        lemma_all_within(cmds.drop_last());
        assert(cmd_in_range(cmds[cmds.len() - 1]));
        let a = all_xs(cmds.drop_last());
        let b = xs_of(cmds.last());
        assert forall|j: int| 0 <= j < (a + b).len() implies -COORD_LIMIT <= #[trigger] (a + b)[j]
            <= COORD_LIMIT by {
            if j >= a.len() {
                assert((a + b)[j] == b[j - a.len()]);
            }
        }
        let c = all_ys(cmds.drop_last());
        let d = ys_of(cmds.last());
        assert forall|j: int| 0 <= j < (c + d).len() implies -COORD_LIMIT <= #[trigger] (c + d)[j]
            <= COORD_LIMIT by {
            if j >= c.len() {
                assert((c + d)[j] == d[j - c.len()]);
            }
        }
    }
}

/// Spans of coordinates within `COORD_LIMIT` lie within `SPAN_LIMIT`.
pub proof fn lemma_dims_bounded(cmds: Seq<Command>)
    requires
        path_in_range(cmds),
    ensures
        0 <= dims(cmds).0 <= SPAN_LIMIT,
        0 <= dims(cmds).1 <= SPAN_LIMIT,
{
    lemma_all_within(cmds);
    lemma_low_high_bounds(all_xs(cmds), COORD_LIMIT as int);
    lemma_low_high_bounds(all_ys(cmds), COORD_LIMIT as int);
}

/// Folds `vals` into the running least and greatest values.
fn fold_extent(vals: &Vec<i128>, lo: i128, hi: i128, ghost_prefix: Ghost<Seq<i128>>) -> (r: (
    i128,
    i128,
))
    requires
        lo == low(ghost_prefix@),
        hi == high(ghost_prefix@),
    ensures
        r.0 == low(ghost_prefix@ + vals@),
        r.1 == high(ghost_prefix@ + vals@),
{
    let mut lo = lo;
    let mut hi = hi;
    let mut i: usize = 0;
    while i < vals.len()
        invariant
            i <= vals@.len(),
            lo == low(ghost_prefix@ + vals@.subrange(0, i as int)),
            hi == high(ghost_prefix@ + vals@.subrange(0, i as int)),
        decreases vals@.len() - i,
    {
        let ghost next = ghost_prefix@ + vals@.subrange(0, i + 1);
        assert(next.drop_last() =~= ghost_prefix@ + vals@.subrange(0, i as int));
        assert(next.last() == vals@[i as int]);
        let v = vals[i];
        if v < lo {
            lo = v;
        }
        if v > hi {
            hi = v;
        }
        i = i + 1;
    }
    assert(vals@.subrange(0, vals@.len() as int) =~= vals@);
    (lo, hi)
}

fn copy_commands(path: &[Command]) -> (r: Vec<Command>)
    ensures
        r@ == path@,
{
    let mut out: Vec<Command> = Vec::new();
    let mut i: usize = 0;
    while i < path.len()
        invariant
            i <= path@.len(),
            out@ == path@.subrange(0, i as int),
        decreases path@.len() - i,
    {
        out.push(path[i]);
        i = i + 1;
        assert(out@ =~= path@.subrange(0, i as int));
    }
    assert(out@ =~= path@);
    out
}

/// The x and y coordinates of a command.
fn coords_of(c: &Command) -> (r: (Vec<i128>, Vec<i128>))
    ensures
        r.0@ == xs_of(*c),
        r.1@ == ys_of(*c),
{
    let (xs, ys) = match *c {
        Command::MoveTo { x, y } => (vec![x], vec![y]),
        Command::LineTo { x, y } => (vec![x], vec![y]),
        Command::CurveTo { x1, y1, x2, y2, x, y } => (vec![x1, x2, x], vec![y1, y2, y]),
        Command::ClosePath => (vec![], vec![]),
        Command::SmoothCurveTo { cx, cy, x2, y2, x, y } => (vec![cx, x2, x], vec![cy, y2, y]),
        Command::QuadraticBezierCurveTo { x1, y1, x, y } => (vec![x1, x], vec![y1, y]),
        Command::SmoothQuadraticBezierCurveTo { cx, cy, x, y } => (vec![cx, x], vec![cy, y]),
        Command::EllipticalArc { px, py, x, y, .. } => (vec![px, x], vec![py, y]),
    };
    assert(xs@ =~= xs_of(*c));
    assert(ys@ =~= ys_of(*c));
    (xs, ys)
}

/// The span of `path` on each axis: greatest minus least coordinate, with the
/// origin counted on both axes and control points included.
pub fn estimate_dimensions(path: &[Command]) -> (r: (i128, i128))
    requires
        path_in_range(path@),
        no_arcs(path@),
    ensures
        r.0 == dims(path@).0,
        r.1 == dims(path@).1,
        0 <= r.0 <= SPAN_LIMIT,
        0 <= r.1 <= SPAN_LIMIT,
{
    let mut min_x: i128 = 0;
    let mut min_y: i128 = 0;
    let mut max_x: i128 = 0;
    let mut max_y: i128 = 0;
    let mut i: usize = 0;
    while i < path.len()
        invariant
            i <= path@.len(),
            path_in_range(path@),
            min_x == low(all_xs(path@.subrange(0, i as int))),
            max_x == high(all_xs(path@.subrange(0, i as int))),
            min_y == low(all_ys(path@.subrange(0, i as int))),
            max_y == high(all_ys(path@.subrange(0, i as int))),
        decreases path@.len() - i,
    {
        let ghost pre = path@.subrange(0, i as int);
        let ghost next = path@.subrange(0, i + 1);
        assert(next.drop_last() =~= pre);
        let (xs, ys) = coords_of(&path[i]);
        let (a, b) = fold_extent(&xs, min_x, max_x, Ghost(all_xs(pre)));
        let (c, d) = fold_extent(&ys, min_y, max_y, Ghost(all_ys(pre)));
        min_x = a;
        max_x = b;
        min_y = c;
        max_y = d;
        i = i + 1;
    }
    assert(path@.subrange(0, path@.len() as int) =~= path@);
    proof {
        lemma_all_within(path@);
        lemma_low_high_bounds(all_xs(path@), COORD_LIMIT as int);
        lemma_low_high_bounds(all_ys(path@), COORD_LIMIT as int);
    }
    (max_x - min_x, max_y - min_y)
}

} // verus!
