//! A command sequence with its span, and the transforms that fit it to a box.
//!
//! The span is measured once, when the path is made. The transforms map the
//! commands against that span and leave it as it is, so after one of them
//! `bb` still gives the span of the commands the path was made from.
use crate::command::Command;
use crate::lexer::UNIT;
use crate::viewbox::{
    cmd_in_range, dims, estimate_dimensions, no_arcs, path_in_range, rescale, scaled, target_ok, xs_of,
    ys_of, ViewBox, COORD_LIMIT, SPAN_LIMIT,
};
use vstd::arithmetic::div_mod::lemma_div_by_multiple;
use vstd::prelude::*;

verus! {

pub struct Path {
    commands: Vec<Command>,
    bb: (i128, i128),
}

/// A command moved by `dx` along x and `dy` along y; arc radii stay.
pub open spec fn translated(c: Command, dx: int, dy: int) -> Command {
    let fx = |v: i128| (v + dx) as i128;
    let fy = |v: i128| (v + dy) as i128;
    match c {
        Command::MoveTo { x, y } => Command::MoveTo { x: fx(x), y: fy(y) },
        Command::LineTo { x, y } => Command::LineTo { x: fx(x), y: fy(y) },
        Command::CurveTo { x1, y1, x2, y2, x, y } => Command::CurveTo {
            x1: fx(x1),
            y1: fy(y1),
            x2: fx(x2),
            y2: fy(y2),
            x: fx(x),
            y: fy(y),
        },
        Command::ClosePath => Command::ClosePath,
        Command::SmoothCurveTo { cx, cy, x2, y2, x, y } => Command::SmoothCurveTo {
            cx: fx(cx),
            cy: fy(cy),
            x2: fx(x2),
            y2: fy(y2),
            x: fx(x),
            y: fy(y),
        },
        Command::QuadraticBezierCurveTo { x1, y1, x, y } => Command::QuadraticBezierCurveTo {
            x1: fx(x1),
            y1: fy(y1),
            x: fx(x),
            y: fy(y),
        },
        Command::SmoothQuadraticBezierCurveTo { cx, cy, x, y } =>
            Command::SmoothQuadraticBezierCurveTo { cx: fx(cx), cy: fy(cy), x: fx(x), y: fy(y) },
        Command::EllipticalArc {
            px,
            py,
            rx,
            ry,
            x_axis_rotation,
            large_arc_flag,
            sweep_flag,
            x,
            y,
        } => Command::EllipticalArc {
            px: fx(px),
            py: fy(py),
            rx,
            ry,
            x_axis_rotation,
            large_arc_flag,
            sweep_flag,
            x: fx(x),
            y: fy(y),
        },
    }
}

/// The frame that a span is measured in: from the origin, of that size.
pub open spec fn span_frame(w: int, h: int) -> ViewBox {
    ViewBox { min_x: 0, min_y: 0, width: w as i128, height: h as i128 }
}

/// The uniform factor `num / den` that fits a span of `bw` by `bh` inside a
/// box of `w` by `h`: the smaller of the two axis factors.
pub open spec fn fit_factor(bw: int, bh: int, w: int, h: int) -> (int, int) {
    if w * bh <= h * bw {
        (w, bw)
    } else {
        (h, bh)
    }
}

/// The uniform factor that makes a span of `bw` by `bh` cover a box of `w` by
/// `h`: the larger of the two axis factors.
pub open spec fn cover_factor(bw: int, bh: int, w: int, h: int) -> (int, int) {
    if w * bh >= h * bw {
        (w, bw)
    } else {
        (h, bh)
    }
}

fn translate_cmd(c: &Command, dx: i128, dy: i128) -> (r: Command)
    requires
        cmd_in_range(*c),
        -COORD_LIMIT <= dx <= COORD_LIMIT,
        -COORD_LIMIT <= dy <= COORD_LIMIT,
    ensures
        r == translated(*c, dx as int, dy as int),
{
    assert(forall|j: int| 0 <= j < xs_of(*c).len() ==> -COORD_LIMIT <= #[trigger] xs_of(*c)[j] <= COORD_LIMIT);
    match *c {
        Command::MoveTo { x, y } => {
            assert(xs_of(*c)[0] == x && ys_of(*c)[0] == y);
            Command::MoveTo { x: x + dx, y: y + dy }
        },
        Command::LineTo { x, y } => {
            assert(xs_of(*c)[0] == x && ys_of(*c)[0] == y);
            Command::LineTo { x: x + dx, y: y + dy }
        },
        Command::CurveTo { x1, y1, x2, y2, x, y } => {
            assert(xs_of(*c)[0] == x1 && xs_of(*c)[1] == x2 && xs_of(*c)[2] == x);
            assert(ys_of(*c)[0] == y1 && ys_of(*c)[1] == y2 && ys_of(*c)[2] == y);
            Command::CurveTo {
                x1: x1 + dx,
                y1: y1 + dy,
                x2: x2 + dx,
                y2: y2 + dy,
                x: x + dx,
                y: y + dy,
            }
        },
        Command::ClosePath => Command::ClosePath,
        Command::SmoothCurveTo { cx, cy, x2, y2, x, y } => {
            assert(xs_of(*c)[0] == cx && xs_of(*c)[1] == x2 && xs_of(*c)[2] == x);
            assert(ys_of(*c)[0] == cy && ys_of(*c)[1] == y2 && ys_of(*c)[2] == y);
            Command::SmoothCurveTo {
                cx: cx + dx,
                cy: cy + dy,
                x2: x2 + dx,
                y2: y2 + dy,
                x: x + dx,
                y: y + dy,
            }
        },
        Command::QuadraticBezierCurveTo { x1, y1, x, y } => {
            assert(xs_of(*c)[0] == x1 && xs_of(*c)[1] == x);
            assert(ys_of(*c)[0] == y1 && ys_of(*c)[1] == y);
            Command::QuadraticBezierCurveTo { x1: x1 + dx, y1: y1 + dy, x: x + dx, y: y + dy }
        },
        Command::SmoothQuadraticBezierCurveTo { cx, cy, x, y } => {
            assert(xs_of(*c)[0] == cx && xs_of(*c)[1] == x);
            assert(ys_of(*c)[0] == cy && ys_of(*c)[1] == y);
            Command::SmoothQuadraticBezierCurveTo { cx: cx + dx, cy: cy + dy, x: x + dx, y: y + dy }
        },
        Command::EllipticalArc {
            px,
            py,
            rx,
            ry,
            x_axis_rotation,
            large_arc_flag,
            sweep_flag,
            x,
            y,
        } => {
            assert(xs_of(*c)[0] == px && xs_of(*c)[1] == x);
            assert(ys_of(*c)[0] == py && ys_of(*c)[1] == y);
            Command::EllipticalArc {
                px: px + dx,
                py: py + dy,
                rx,
                ry,
                x_axis_rotation,
                large_arc_flag,
                sweep_flag,
                x: x + dx,
                y: y + dy,
            }
        },
    }
}

impl Path {
    /// The commands.
    pub closed spec fn cmds(&self) -> Seq<Command> {
        self.commands@
    }

    /// The span lies within what the transforms can multiply by.
    pub closed spec fn wf(&self) -> bool {
        0 <= self.bb.0 <= SPAN_LIMIT && 0 <= self.bb.1 <= SPAN_LIMIT
    }

    /// The span measured when the path was made.
    pub closed spec fn span(&self) -> (int, int) {
        (self.bb.0 as int, self.bb.1 as int)
    }

    /// A path over `commands`, with their span.
    pub fn new(commands: Vec<Command>) -> (r: Self)
        requires
            path_in_range(commands@),
            no_arcs(commands@),
        ensures
            r.wf(),
            r.cmds() == commands@,
            r.span() == dims(commands@),
    {
        let bb = estimate_dimensions(commands.as_slice());
        Self { commands, bb }
    }

    pub fn commands(&self) -> (r: &[Command])
        ensures
            r@ == self.cmds(),
    {
        self.commands.as_slice()
    }

    pub fn take_commands(self) -> (r: Vec<Command>)
        ensures
            r@ == self.cmds(),
    {
        self.commands
    }

    pub fn bb(&self) -> (r: (i128, i128))
        ensures
            r.0 == self.span().0,
            r.1 == self.span().1,
            self.wf() ==> 0 <= r.0 <= SPAN_LIMIT && 0 <= r.1 <= SPAN_LIMIT,
    {
        self.bb
    }

    /// Moves every command by `x` along x and `y` along y.
    pub fn translate(&mut self, x: i128, y: i128)
        requires
            path_in_range(old(self).cmds()),
            -COORD_LIMIT <= x <= COORD_LIMIT,
            -COORD_LIMIT <= y <= COORD_LIMIT,
        ensures
            final(self).wf() == old(self).wf(),
            final(self).span() == old(self).span(),
            final(self).cmds().len() == old(self).cmds().len(),
            forall|j: int|
                0 <= j < old(self).cmds().len() ==> #[trigger] final(self).cmds()[j] == translated(
                    old(self).cmds()[j],
                    x as int,
                    y as int,
                ),
    {
        let ghost before = self.commands@;
        let mut i: usize = 0;
        while i < self.commands.len()
            invariant
                i <= self.commands@.len(),
                self.commands@.len() == before.len(),
                path_in_range(before),
                self.bb == old(self).bb,
                before == old(self).commands@,
                -COORD_LIMIT <= x <= COORD_LIMIT,
                -COORD_LIMIT <= y <= COORD_LIMIT,
                forall|j: int| i <= j < before.len() ==> #[trigger] self.commands@[j] == before[j],
                forall|j: int|
                    0 <= j < i ==> #[trigger] self.commands@[j] == translated(
                        before[j],
                        x as int,
                        y as int,
                    ),
            decreases before.len() - i,
        {
            let c = translate_cmd(&self.commands[i], x, y);
            self.commands[i] = c;
            i = i + 1;
        }
    }

    /// Maps every command through `vb` onto a target of `w` by `h`.
    fn map_all(&mut self, vb: ViewBox, w: i128, h: i128)
        requires
            path_in_range(old(self).cmds()),
            no_arcs(old(self).cmds()),
            vb.min_x == 0 && vb.min_y == 0 && vb.width > 0 && vb.height > 0,
            target_ok(w as int, h as int),
        ensures
            no_arcs(final(self).cmds()),
            final(self).wf() == old(self).wf(),
            final(self).span() == old(self).span(),
            final(self).cmds().len() == old(self).cmds().len(),
            forall|j: int|
                0 <= j < old(self).cmds().len() ==> #[trigger] final(self).cmds()[j] == scaled(
                    vb,
                    old(self).cmds()[j],
                    w as int,
                    h as int,
                ),
    {
        let ghost before = self.commands@;
        let mut i: usize = 0;
        while i < self.commands.len()
            invariant
                i <= self.commands@.len(),
                self.commands@.len() == before.len(),
                path_in_range(before),
                no_arcs(before),
                self.bb == old(self).bb,
                before == old(self).commands@,
                vb.min_x == 0 && vb.min_y == 0 && vb.width > 0 && vb.height > 0,
                target_ok(w as int, h as int),
                forall|j: int| i <= j < before.len() ==> #[trigger] self.commands@[j] == before[j],
                forall|j: int|
                    0 <= j < i ==> #[trigger] self.commands@[j] == scaled(
                        vb,
                        before[j],
                        w as int,
                        h as int,
                    ),
            decreases before.len() - i,
        {
            let c = vb.scale_cmd(&self.commands[i], w, h);
            self.commands[i] = c;
            i = i + 1;
        }
    }

    /// Scales x and y independently so that the span becomes `width` by `height`.
    pub fn resize(&mut self, width: i128, height: i128)
        requires
            path_in_range(old(self).cmds()),
            no_arcs(old(self).cmds()),
            old(self).span().0 > 0 && old(self).span().1 > 0,
            target_ok(width as int, height as int),
        ensures
            no_arcs(final(self).cmds()),
            final(self).wf() == old(self).wf(),
            final(self).span() == old(self).span(),
            final(self).cmds().len() == old(self).cmds().len(),
            forall|j: int|
                0 <= j < old(self).cmds().len() ==> #[trigger] final(self).cmds()[j] == scaled(
                    span_frame(old(self).span().0, old(self).span().1),
                    old(self).cmds()[j],
                    width as int,
                    height as int,
                ),
    {
        let vb = ViewBox::new(0, 0, self.bb.0, self.bb.1);
        self.map_all(vb, width, height);
    }

    /// Scales both axes by `scale`, in counts (`UNIT` is a factor of one).
    pub fn scale(&mut self, scale: i128)
        requires
            path_in_range(old(self).cmds()),
            no_arcs(old(self).cmds()),
            target_ok(scale as int, scale as int),
        ensures
            no_arcs(final(self).cmds()),
            final(self).wf() == old(self).wf(),
            final(self).span() == old(self).span(),
            final(self).cmds().len() == old(self).cmds().len(),
            forall|j: int|
                0 <= j < old(self).cmds().len() ==> #[trigger] final(self).cmds()[j] == scaled(
                    span_frame(UNIT as int, UNIT as int),
                    old(self).cmds()[j],
                    scale as int,
                    scale as int,
                ),
    {
        let vb = ViewBox::new(0, 0, UNIT, UNIT);
        self.map_all(vb, scale, scale);
    }

    /// Scales both axes by the smaller of `width / span.0` and `height / span.1`,
    /// so that the path fits inside the box.
    pub fn fit(&mut self, width: i128, height: i128)
        requires
            old(self).wf(),
            path_in_range(old(self).cmds()),
            no_arcs(old(self).cmds()),
            old(self).span().0 > 0 && old(self).span().1 > 0,
            target_ok(width as int, height as int),
        ensures
            no_arcs(final(self).cmds()),
            final(self).wf(),
            final(self).span() == old(self).span(),
            final(self).cmds().len() == old(self).cmds().len(),
            ({
                let (num, den) = fit_factor(
                    old(self).span().0,
                    old(self).span().1,
                    width as int,
                    height as int,
                );
                forall|j: int|
                    0 <= j < old(self).cmds().len() ==> #[trigger] final(self).cmds()[j] == scaled(
                        span_frame(den, den),
                        old(self).cmds()[j],
                        num,
                        num,
                    )
            }),
    {
        let (bw, bh) = self.bb;
        let (num, den) = if cross_le(width, bh, height, bw) {
            (width, bw)
        } else {
            (height, bh)
        };
        let vb = ViewBox::new(0, 0, den, den);
        self.map_all(vb, num, num);
    }

    /// Scales both axes by the larger of `width / span.0` and `height / span.1`,
    /// so that the path covers the box.
    pub fn cover(&mut self, width: i128, height: i128)
        requires
            old(self).wf(),
            path_in_range(old(self).cmds()),
            no_arcs(old(self).cmds()),
            old(self).span().0 > 0 && old(self).span().1 > 0,
            target_ok(width as int, height as int),
        ensures
            no_arcs(final(self).cmds()),
            final(self).wf(),
            final(self).span() == old(self).span(),
            final(self).cmds().len() == old(self).cmds().len(),
            ({
                let (num, den) = cover_factor(
                    old(self).span().0,
                    old(self).span().1,
                    width as int,
                    height as int,
                );
                forall|j: int|
                    0 <= j < old(self).cmds().len() ==> #[trigger] final(self).cmds()[j] == scaled(
                        span_frame(den, den),
                        old(self).cmds()[j],
                        num,
                        num,
                    )
            }),
    {
        let (bw, bh) = self.bb;
        let (num, den) = if cross_le(height, bw, width, bh) {
            (width, bw)
        } else {
            (height, bh)
        };
        let vb = ViewBox::new(0, 0, den, den);
        self.map_all(vb, num, num);
    }
}

/// Whether `a * b <= c * d`, for factors within `SPAN_LIMIT`.
fn cross_le(a: i128, b: i128, c: i128, d: i128) -> (r: bool)
    requires
        -SPAN_LIMIT <= a <= SPAN_LIMIT,
        0 <= b <= SPAN_LIMIT,
        -SPAN_LIMIT <= c <= SPAN_LIMIT,
        0 <= d <= SPAN_LIMIT,
    ensures
        r == (a * b <= c * d),
{
    assert(-SPAN_LIMIT * SPAN_LIMIT <= a * b <= SPAN_LIMIT * SPAN_LIMIT) by (nonlinear_arith)
        requires
            -SPAN_LIMIT <= a <= SPAN_LIMIT,
            0 <= b <= SPAN_LIMIT,
    ;
    assert(-SPAN_LIMIT * SPAN_LIMIT <= c * d <= SPAN_LIMIT * SPAN_LIMIT) by (nonlinear_arith)
        requires
            -SPAN_LIMIT <= c <= SPAN_LIMIT,
            0 <= d <= SPAN_LIMIT,
    ;
    a * b <= c * d
}

/// Resizing a path to its own span maps every command to itself.
pub proof fn lemma_resize_to_own_span(cmds: Seq<Command>)
    requires
        path_in_range(cmds),
        dims(cmds).0 > 0,
        dims(cmds).1 > 0,
    ensures
        forall|j: int|
            0 <= j < cmds.len() ==> #[trigger] scaled(
                span_frame(dims(cmds).0, dims(cmds).1),
                cmds[j],
                dims(cmds).0,
                dims(cmds).1,
            ) == cmds[j],
{
    let (w, h) = dims(cmds);
    crate::viewbox::lemma_dims_bounded(cmds);
    assert forall|j: int| 0 <= j < cmds.len() implies #[trigger] scaled(
        span_frame(w, h),
        cmds[j],
        w,
        h,
    ) == cmds[j] by {
        assert forall|v: i128| rescale(v as int, 0, w, w) == v by {
            lemma_rescale_same(v as int, w);
        }
        assert forall|v: i128| rescale(v as int, 0, h, h) == v by {
            lemma_rescale_same(v as int, h);
        }
    }
}

proof fn lemma_rescale_same(v: int, b: int)
    requires
        b > 0,
    ensures
        rescale(v, 0, b, b) == v,
{
    if v >= 0 {
        lemma_div_by_multiple(v, b);
    } else {
        lemma_div_by_multiple(-v, b);
        assert((v - 0) * b == -((-v) * b)) by (nonlinear_arith);
    }
}

} // verus!
