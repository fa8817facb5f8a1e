//! Assembly of a flattened arc: a line to its first point, then one smooth
//! quadratic segment per step. The points on the ellipse come from
//! trigonometry done by the caller: for `n` steps, `2n + 1` samples at the
//! start, middle and end of each step, in order.
use crate::command::Command;
use crate::viewbox::{div_trunc, COORD_LIMIT};
use vstd::prelude::*;

verus! {

/// The control point of the quadratic segment from `a` to `b` that passes
/// through `m` at its middle: `2m - a/2 - b/2`, rounded toward zero.
pub open spec fn control(a: int, m: int, b: int) -> int {
    div_trunc(4 * m - a - b, 2)
}

pub open spec fn samples_ok(s: Seq<(i128, i128)>) -> bool {
    &&& s.len() >= 3
    &&& s.len() % 2 == 1
    &&& forall|j: int|
        0 <= j < s.len() ==> -COORD_LIMIT <= (#[trigger] s[j]).0 <= COORD_LIMIT && -COORD_LIMIT
            <= s[j].1 <= COORD_LIMIT
}

/// The segment of step `k`.
pub open spec fn segment(s: Seq<(i128, i128)>, k: int) -> Command {
    let a = s[2 * k];
    let m = s[2 * k + 1];
    let b = s[2 * k + 2];
    Command::SmoothQuadraticBezierCurveTo {
        cx: control(a.0 as int, m.0 as int, b.0 as int) as i128,
        cy: control(a.1 as int, m.1 as int, b.1 as int) as i128,
        x: b.0,
        y: b.1,
    }
}

/// The commands of a flattened arc: a line to the first sample, then the
/// segment of each step. No samples give no commands.
pub open spec fn arc_cmds(s: Seq<(i128, i128)>) -> Seq<Command> {
    if s.len() == 0 {
        seq![]
    } else {
        seq![Command::LineTo { x: s[0].0, y: s[0].1 }] + Seq::new(
            ((s.len() - 1) / 2) as nat,
            |k: int| segment(s, k),
        )
    }
}

/// How many arcs a command sequence holds.
pub open spec fn arc_count(cmds: Seq<Command>) -> nat
    decreases cmds.len(),
{
    if cmds.len() == 0 {
        0
    } else {
        arc_count(cmds.drop_first()) + if cmds[0] is EllipticalArc {
            1nat
        } else {
            0nat
        }
    }
}

/// `cmds` with its arcs, in order, replaced by the flattenings through the
/// sample lists of `samples`.
pub open spec fn flattened(cmds: Seq<Command>, samples: Seq<Seq<(i128, i128)>>) -> Seq<Command>
    decreases cmds.len(),
{
    if cmds.len() == 0 {
        seq![]
    } else if cmds[0] is EllipticalArc {
        arc_cmds(samples[0]) + flattened(cmds.drop_first(), samples.drop_first())
    } else {
        seq![cmds[0]] + flattened(cmds.drop_first(), samples)
    }
}

fn control_point(a: i128, m: i128, b: i128) -> (r: i128)
    requires
        -COORD_LIMIT <= a <= COORD_LIMIT,
        -COORD_LIMIT <= m <= COORD_LIMIT,
        -COORD_LIMIT <= b <= COORD_LIMIT,
    ensures
        r == control(a as int, m as int, b as int),
{
    let t = 4 * m - a - b;
    if t >= 0 {
        t / 2
    } else {
        -((-t) / 2)
    }
}

/// Appends the flattened arc through `samples` to `out`: a line to the first
/// sample, then for each step a smooth quadratic segment to its end sample
/// whose control point makes it pass through the middle sample.
pub fn push_arc_segments(out: &mut Vec<Command>, samples: &[(i128, i128)])
    requires
        samples_ok(samples@),
    ensures
        final(out)@ == old(out)@ + arc_cmds(samples@),
{
    let ghost start = old(out)@.len() as int;
    let steps = (samples.len() - 1) / 2;
    let (x0, y0) = samples[0];
    out.push(Command::LineTo { x: x0, y: y0 });
    let mut k: usize = 0;
    while k < steps
        invariant
            samples_ok(samples@),
            steps == (samples@.len() - 1) / 2,
            k <= steps,
            start == old(out)@.len(),
            out@.len() == start + 1 + k,
            out@.subrange(0, start) == old(out)@,
            out@[start] == (Command::LineTo { x: samples@[0].0, y: samples@[0].1 }),
            forall|j: int| 0 <= j < k ==> #[trigger] out@[start + 1 + j] == segment(samples@, j),
        decreases steps - k,
    {
        assert(2 * k + 2 < samples@.len()) by (nonlinear_arith)
            requires
                k < steps,
                steps == (samples@.len() - 1) / 2,
                samples@.len() % 2 == 1,
        ;
        assert(samples@.len() == samples.len());
        let (ax, ay) = samples[2 * k];
        let (mx, my) = samples[2 * k + 1];
        let (bx, by) = samples[2 * k + 2];
        let c = Command::SmoothQuadraticBezierCurveTo {
            cx: control_point(ax, mx, bx),
            cy: control_point(ay, my, by),
            x: bx,
            y: by,
        };
        let ghost before = out@;
        out.push(c);
        assert(out@.subrange(0, start) =~= before.subrange(0, start));
        k = k + 1;
    }
    let ghost want = old(out)@ + arc_cmds(samples@);
    assert forall|j: int| 0 <= j < out@.len() implies out@[j] == want[j] by {
        if j < start {
            assert(out@[j] == out@.subrange(0, start)[j]);
        } else if j > start {
            assert(out@[start + 1 + (j - start - 1)] == segment(samples@, j - start - 1));
        }
    }
    assert(out@ =~= want);
}

/// Replaces each arc of `commands`, in order, by the flattening through its
/// list of samples in `samples`; an empty list drops the arc.
pub fn flatten_arcs(commands: &[Command], samples: &[Vec<(i128, i128)>]) -> (r: Vec<Command>)
    requires
        samples@.len() == arc_count(commands@),
        forall|k: int|
            0 <= k < samples@.len() ==> (#[trigger] samples@[k])@.len() == 0 || samples_ok(
                samples@[k]@,
            ),
    ensures
        r@ == flattened(commands@, samples@.map_values(|v: Vec<(i128, i128)>| v@)),
{
    let ghost all = samples@.map_values(|v: Vec<(i128, i128)>| v@);
    let mut out: Vec<Command> = Vec::new();
    let mut i: usize = 0;
    let mut k: usize = 0;
    assert(commands@.skip(0) =~= commands@);
    assert(all.skip(0) =~= all);
    assert(out@ + flattened(commands@, all) =~= flattened(commands@, all));
    while i < commands.len()
        invariant
            i <= commands@.len(),
            k <= samples@.len(),
            all == samples@.map_values(|v: Vec<(i128, i128)>| v@),
            samples@.len() - k == arc_count(commands@.skip(i as int)),
            forall|j: int|
                0 <= j < samples@.len() ==> (#[trigger] samples@[j])@.len() == 0 || samples_ok(
                    samples@[j]@,
                ),
            flattened(commands@, all) == out@ + flattened(commands@.skip(i as int), all.skip(k as int)),
        decreases commands@.len() - i,
    {
        let ghost rest = commands@.skip(i as int);
        let ghost srest = all.skip(k as int);
        assert(rest.drop_first() =~= commands@.skip(i + 1));
        assert(rest[0] == commands@[i as int]);
        let ghost before = out@;
        match commands[i] {
            Command::EllipticalArc { .. } => {
                assert(srest.drop_first() =~= all.skip(k + 1));
                assert(srest[0] == samples@[k as int]@);
                let s = &samples[k];
                if s.len() > 0 {
                    push_arc_segments(&mut out, s.as_slice());
                } else {
                    assert(before + arc_cmds(s@) =~= before);
                }
                assert(before + (arc_cmds(s@) + flattened(rest.drop_first(), srest.drop_first())) =~= out@
                    + flattened(rest.drop_first(), srest.drop_first()));
                k = k + 1;
            },
            _ => {
                out.push(commands[i]);
                assert(before + (seq![commands@[i as int]] + flattened(rest.drop_first(), srest)) =~= out@
                    + flattened(rest.drop_first(), srest));
            },
        }
        i = i + 1;
    }
    assert(commands@.skip(i as int) =~= Seq::<Command>::empty());
    assert(out@ + Seq::<Command>::empty() =~= out@);
    out
}

/// The flattened arc ends at the last sample: the first point is the first
/// sample and the last segment ends at the last one.
pub proof fn lemma_arc_ends(samples: Seq<(i128, i128)>)
    requires
        samples_ok(samples),
    ensures
        ({
            let n = (samples.len() - 1) / 2;
            segment(samples, n - 1) matches Command::SmoothQuadraticBezierCurveTo { x, y, .. }
                && x == samples[samples.len() - 1].0 && y == samples[samples.len() - 1].1
        }),
{
}

} // verus!
