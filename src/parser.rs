//! The command parser: a single pass over the tokens that resolves relative
//! coordinates and smooth control points against the running pen state.
use crate::command::{Command, Expected};
use crate::lexer::{lex, tokenize, tokens_in_range, Cmd, Token, LITERAL_LIMIT};
use vstd::prelude::*;
use vstd::string::StringSliceAdditionalSpecFns;

verus! {

/// Bound on every pen coordinate while parsing: at most one literal per
/// token read, for any token count that fits in memory.
pub const PEN_LIMIT: i128 = 20_000_000_000_000_000_000_000_000_000_000_000_000;

/// The parser's running state: current point, last control point, start of
/// the current subpath, and the previous command letter.
pub struct Pen {
    pub px: int,
    pub py: int,
    pub cx: int,
    pub cy: int,
    pub sx: int,
    pub sy: int,
    pub last: Option<Cmd>,
}

pub open spec fn start_pen() -> Pen {
    Pen { px: 0, py: 0, cx: 0, cy: 0, sx: 0, sy: 0, last: None }
}

/// Arguments of one repetition of a family.
pub open spec fn arity(f: Cmd) -> nat {
    match f {
        Cmd::M => 2,
        Cmd::L => 2,
        Cmd::H => 1,
        Cmd::V => 1,
        Cmd::C => 6,
        Cmd::S => 4,
        Cmd::Q => 4,
        Cmd::T => 2,
        Cmd::A => 7,
        Cmd::Z => 0,
    }
}

/// The offset that relative arguments are taken from.
pub open spec fn offset(p: Pen, rel: bool) -> (int, int) {
    if rel {
        (p.px, p.py)
    } else {
        (0, 0)
    }
}

/// A smooth family reflects the previous control point when the previous
/// letter was of its own kind of curve.
pub open spec fn reflects(last: Option<Cmd>, f: Cmd) -> bool {
    match f {
        Cmd::S => last == Some(Cmd::C) || last == Some(Cmd::S),
        Cmd::T => last == Some(Cmd::Q) || last == Some(Cmd::T),
        _ => false,
    }
}

/// The incoming control point of a smooth curve: the previous control point
/// reflected through the current point, or else the current point.
pub open spec fn incoming(p: Pen, f: Cmd) -> (int, int) {
    if reflects(p.last, f) {
        (2 * p.px - p.cx, 2 * p.py - p.cy)
    } else {
        (p.px, p.py)
    }
}

/// A moveto: the pen and the subpath start go to the point.
pub open spec fn move_to(rel: bool, p: Pen, a: Seq<i128>) -> (Pen, Seq<Command>) {
    let (dx, dy) = offset(p, rel);
    let x = a[0] + dx;
    let y = a[1] + dy;
    (Pen { px: x, py: y, sx: x, sy: y, ..p }, seq![Command::MoveTo { x: x as i128, y: y as i128 }])
}

/// One repetition of family `f` on arguments `a`: the next pen and what it emits.
pub open spec fn group(f: Cmd, rel: bool, p: Pen, a: Seq<i128>) -> (Pen, Seq<Command>) {
    let (dx, dy) = offset(p, rel);
    match f {
        Cmd::L => {
            let x = a[0] + dx;
            let y = a[1] + dy;
            (Pen { px: x, py: y, ..p }, seq![Command::LineTo { x: x as i128, y: y as i128 }])
        },
        Cmd::H => {
            let x = a[0] + dx;
            (Pen { px: x, ..p }, seq![Command::LineTo { x: x as i128, y: p.py as i128 }])
        },
        Cmd::V => {
            let y = a[0] + dy;
            (Pen { py: y, ..p }, seq![Command::LineTo { x: p.px as i128, y: y as i128 }])
        },
        Cmd::C => {
            let x2 = a[2] + dx;
            let y2 = a[3] + dy;
            let x = a[4] + dx;
            let y = a[5] + dy;
            (
                Pen { px: x, py: y, cx: x2, cy: y2, ..p },
                seq![
                    Command::CurveTo {
                        x1: (a[0] + dx) as i128,
                        y1: (a[1] + dy) as i128,
                        x2: x2 as i128,
                        y2: y2 as i128,
                        x: x as i128,
                        y: y as i128,
                    },
                ],
            )
        },
        Cmd::S => {
            let (ix, iy) = incoming(p, Cmd::S);
            let x2 = a[0] + dx;
            let y2 = a[1] + dy;
            let x = a[2] + dx;
            let y = a[3] + dy;
            (
                Pen { px: x, py: y, cx: x2, cy: y2, ..p },
                seq![
                    Command::SmoothCurveTo {
                        cx: ix as i128,
                        cy: iy as i128,
                        x2: x2 as i128,
                        y2: y2 as i128,
                        x: x as i128,
                        y: y as i128,
                    },
                ],
            )
        },
        Cmd::Q => {
            let x1 = a[0] + dx;
            let y1 = a[1] + dy;
            let x = a[2] + dx;
            let y = a[3] + dy;
            (
                Pen { px: x, py: y, cx: x1, cy: y1, ..p },
                seq![
                    Command::QuadraticBezierCurveTo {
                        x1: x1 as i128,
                        y1: y1 as i128,
                        x: x as i128,
                        y: y as i128,
                    },
                ],
            )
        },
        Cmd::T => {
            let (ix, iy) = incoming(p, Cmd::T);
            let x = a[0] + dx;
            let y = a[1] + dy;
            (
                Pen { px: x, py: y, cx: x, cy: y, ..p },
                seq![
                    Command::SmoothQuadraticBezierCurveTo {
                        cx: ix as i128,
                        cy: iy as i128,
                        x: x as i128,
                        y: y as i128,
                    },
                ],
            )
        },
        Cmd::A => {
            let x = a[5] + dx;
            let y = a[6] + dy;
            let emitted = if a[0] != 0 && a[1] != 0 {
                seq![
                    Command::EllipticalArc {
                        px: p.px as i128,
                        py: p.py as i128,
                        rx: a[0],
                        ry: a[1],
                        x_axis_rotation: a[2],
                        large_arc_flag: a[3] != 0,
                        sweep_flag: a[4] != 0,
                        x: x as i128,
                        y: y as i128,
                    },
                ]
            } else {
                seq![]
            };
            (Pen { px: x, py: y, cx: x, cy: y, ..p }, emitted)
        },
        _ => (p, seq![]),
    }
}

pub open spec fn is_number(ts: Seq<Token>, j: int) -> bool {
    0 <= j < ts.len() && ts[j] is Number
}

pub open spec fn num_at(ts: Seq<Token>, j: int) -> i128 {
    match ts[j] {
        Token::Number(v) => v,
        _ => 0,
    }
}

/// The `k` tokens from `i` are all numbers.
pub open spec fn numbers_at(ts: Seq<Token>, i: int, k: nat) -> bool {
    forall|j: int| i <= j < i + k ==> is_number(ts, j)
}

pub open spec fn args(ts: Seq<Token>, i: int, k: nat) -> Seq<i128> {
    Seq::new(k, |j: int| num_at(ts, i + j))
}

/// Prefixes `out` to a successful result; a failure stays as it is.
pub open spec fn then(out: Seq<Command>, rest: Result<Seq<Command>, Expected>) -> Result<
    Seq<Command>,
    Expected,
> {
    match rest {
        Ok(s) => Ok(out + s),
        Err(e) => Err(e),
    }
}

pub open spec fn mode_rank(mode: Option<(Cmd, bool, Cmd)>) -> int {
    if mode is Some {
        1
    } else {
        0
    }
}

/// The parse of the tokens from `i` with pen `p`. With `mode` `None` a command
/// letter or the end is due; with `Some((f, rel, letter))` the repetitions of
/// family `f` go on while a number follows, and `letter` becomes the previous
/// letter when they end.
pub open spec fn run_from(
    ts: Seq<Token>,
    i: int,
    p: Pen,
    mode: Option<(Cmd, bool, Cmd)>,
) -> Result<Seq<Command>, Expected>
    decreases ts.len() - i, mode_rank(mode)
    via run_from_decreases
{
    match mode {
        Some((f, rel, letter)) => {
            if is_number(ts, i) && arity(f) > 0 {
                if numbers_at(ts, i, arity(f)) {
                    let (q, out) = group(f, rel, p, args(ts, i, arity(f)));
                    then(out, run_from(ts, i + arity(f), Pen { last: Some(letter), ..q }, mode))
                } else {
                    Err(Expected::Number)
                }
            } else {
                run_from(ts, i, Pen { last: Some(letter), ..p }, None)
            }
        },
        None => {
            if i < 0 || i >= ts.len() {
                Ok(seq![])
            } else {
                match ts[i] {
                    Token::Number(_) | Token::Invalid => Err(Expected::Command),
                    Token::Command(Cmd::Z, _) => then(
                        seq![Command::ClosePath],
                        run_from(ts, i + 1, Pen { px: p.sx, py: p.sy, last: Some(Cmd::Z), ..p }, None),
                    ),
                    Token::Command(Cmd::M, rel) => {
                        if numbers_at(ts, i + 1, 2) {
                            let (q, out) = move_to(rel, p, args(ts, i + 1, 2));
                            then(out, run_from(ts, i + 3, q, Some((Cmd::L, rel, Cmd::M))))
                        } else {
                            Err(Expected::Number)
                        }
                    },
                    Token::Command(f, rel) => run_from(ts, i + 1, p, Some((f, rel, f))),
                }
            }
        },
    }
}

#[via_fn]
proof fn run_from_decreases(ts: Seq<Token>, i: int, p: Pen, mode: Option<(Cmd, bool, Cmd)>) {
    match mode {
        Some((f, rel, letter)) => {
            if is_number(ts, i) && arity(f) > 0 && numbers_at(ts, i, arity(f)) {
                assert(is_number(ts, i + arity(f) - 1));
            }
        },
        None => {
            if 0 <= i < ts.len() && numbers_at(ts, i + 1, 2) {
                assert(is_number(ts, i + 2));
            }
        },
    }
}

/// The parse of a token sequence.
pub open spec fn parse_tokens(ts: Seq<Token>) -> Result<Seq<Command>, Expected> {
    run_from(ts, 0, start_pen(), None)
}

/// The parse of a path text.
pub open spec fn parse_text(s: Seq<u8>) -> Result<Seq<Command>, Expected> {
    parse_tokens(lex(s))
}

pub open spec fn result_view(r: Result<Vec<Command>, Expected>) -> Result<Seq<Command>, Expected> {
    match r {
        Ok(v) => Ok(v@),
        Err(e) => Err(e),
    }
}

pub open spec fn bounded(p: Pen, b: int) -> bool {
    &&& -b <= p.px <= b
    &&& -b <= p.py <= b
    &&& -b <= p.cx <= b
    &&& -b <= p.cy <= b
    &&& -b <= p.sx <= b
    &&& -b <= p.sy <= b
}

pub open spec fn args_in_range(a: Seq<i128>) -> bool {
    forall|j: int| 0 <= j < a.len() ==> -LITERAL_LIMIT < #[trigger] a[j] < LITERAL_LIMIT
}

proof fn lemma_then_then(a: Seq<Command>, b: Seq<Command>, r: Result<Seq<Command>, Expected>)
    ensures
        then(a, then(b, r)) == then(a + b, r),
{
    if let Ok(s) = r {
        assert(a + (b + s) =~= (a + b) + s);
    }
}

proof fn lemma_group_bounded(f: Cmd, rel: bool, p: Pen, a: Seq<i128>, b: int)
    requires
        bounded(p, b),
        0 <= b,
        a.len() == arity(f),
        args_in_range(a),
    ensures
        bounded(group(f, rel, p, a).0, b + LITERAL_LIMIT),
        group(f, rel, p, a).0.last == p.last,
{
    if a.len() > 0 {
        assert(-LITERAL_LIMIT < a[0] < LITERAL_LIMIT);
    }
    if a.len() > 1 {
        assert(-LITERAL_LIMIT < a[1] < LITERAL_LIMIT);
    }
    if a.len() > 3 {
        assert(-LITERAL_LIMIT < a[2] < LITERAL_LIMIT);
        assert(-LITERAL_LIMIT < a[3] < LITERAL_LIMIT);
    }
    if a.len() > 5 {
        assert(-LITERAL_LIMIT < a[4] < LITERAL_LIMIT);
        assert(-LITERAL_LIMIT < a[5] < LITERAL_LIMIT);
    }
    if a.len() > 6 {
        assert(-LITERAL_LIMIT < a[6] < LITERAL_LIMIT);
    }
}

/// Parsing depends on the text alone: equal texts parse to equal results.
pub proof fn lemma_parse_deterministic(a: &str, b: &str)
    requires
        a@ == b@,
    ensures
        parse_text(a.spec_bytes()) == parse_text(b.spec_bytes()),
{
}

/// An arc with a zero radius emits nothing, and still moves the pen to its
/// end point; the control point follows the pen and the subpath start stays.
pub proof fn lemma_degenerate_arc(rel: bool, p: Pen, a: Seq<i128>)
    requires
        a.len() == 7,
        a[0] == 0 || a[1] == 0,
    ensures
        group(Cmd::A, rel, p, a).1 == Seq::<Command>::empty(),
        group(Cmd::A, rel, p, a).0.px == a[5] + offset(p, rel).0,
        group(Cmd::A, rel, p, a).0.py == a[6] + offset(p, rel).1,
        group(Cmd::A, rel, p, a).0.cx == group(Cmd::A, rel, p, a).0.px,
        group(Cmd::A, rel, p, a).0.cy == group(Cmd::A, rel, p, a).0.py,
        group(Cmd::A, rel, p, a).0.sx == p.sx,
        group(Cmd::A, rel, p, a).0.sy == p.sy,
{
}

/// The sum of the first `j` x (`axis` 0) or y (`axis` 1) arguments of the
/// coordinate pairs from token `i`.
pub open spec fn pair_sum(ts: Seq<Token>, i: int, j: nat, axis: int) -> int
    decreases j,
{
    if j == 0 {
        0
    } else {
        pair_sum(ts, i, (j - 1) as nat, axis) + num_at(ts, i + 2 * (j - 1) + axis)
    }
}

/// The pen position after `j` lineto pairs from token `i`: the start moved by
/// the sum of the pairs when relative, the `j`-th pair itself when absolute.
pub open spec fn line_point(ts: Seq<Token>, i: int, p: Pen, rel: bool, j: nat) -> (int, int) {
    if rel {
        (p.px + pair_sum(ts, i, j, 0), p.py + pair_sum(ts, i, j, 1))
    } else if j == 0 {
        (p.px, p.py)
    } else {
        (num_at(ts, i + 2 * (j - 1)) as int, num_at(ts, i + 2 * (j - 1) + 1) as int)
    }
}

/// The linetos of `k` pairs from token `i`, to each successive pen position.
pub open spec fn line_cmds(ts: Seq<Token>, i: int, p: Pen, rel: bool, k: nat) -> Seq<Command> {
    Seq::new(
        k,
        |j: int|
            Command::LineTo {
                x: line_point(ts, i, p, rel, (j + 1) as nat).0 as i128,
                y: line_point(ts, i, p, rel, (j + 1) as nat).1 as i128,
            },
    )
}

proof fn lemma_pair_sum_shift(ts: Seq<Token>, i: int, j: nat, axis: int)
    ensures
        pair_sum(ts, i, j + 1, axis) == num_at(ts, i + axis) + pair_sum(ts, i + 2, j, axis),
    decreases j,
{
    reveal_with_fuel(pair_sum, 2);
    if j > 0 {
        lemma_pair_sum_shift(ts, i, (j - 1) as nat, axis);
        assert(pair_sum(ts, i + 2, j, axis) == pair_sum(ts, i + 2, (j - 1) as nat, axis) + num_at(
            ts,
            i + 2 + 2 * (j - 1) + axis,
        ));
        assert(pair_sum(ts, i, j + 1, axis) == pair_sum(ts, i, j, axis) + num_at(ts, i + 2 * j + axis));
    }
}

/// The pen after the first lineto pair from token `i`.
pub open spec fn line_pen(ts: Seq<Token>, i: int, p: Pen, rel: bool, letter: Cmd) -> Pen {
    Pen {
        px: line_point(ts, i, p, rel, 1).0,
        py: line_point(ts, i, p, rel, 1).1,
        last: Some(letter),
        ..p
    }
}

proof fn lemma_line_step(ts: Seq<Token>, i: int, p: Pen, rel: bool, letter: Cmd)
    requires
        0 <= i,
        is_number(ts, i),
        is_number(ts, i + 1),
    ensures
        run_from(ts, i, p, Some((Cmd::L, rel, letter))) == then(
            seq![
                Command::LineTo {
                    x: line_point(ts, i, p, rel, 1).0 as i128,
                    y: line_point(ts, i, p, rel, 1).1 as i128,
                },
            ],
            run_from(ts, i + 2, line_pen(ts, i, p, rel, letter), Some((Cmd::L, rel, letter))),
        ),
{
    reveal_with_fuel(pair_sum, 2);
    assert(numbers_at(ts, i, 2));
    let a = args(ts, i, 2);
    assert(a[0] == num_at(ts, i) && a[1] == num_at(ts, i + 1));
}

proof fn lemma_line_point_shift(ts: Seq<Token>, i: int, p: Pen, rel: bool, letter: Cmd, j: nat)
    ensures
        line_point(ts, i + 2, line_pen(ts, i, p, rel, letter), rel, j) == line_point(ts, i, p, rel, j + 1),
{
    reveal_with_fuel(pair_sum, 2);
    lemma_pair_sum_shift(ts, i, j, 0);
    lemma_pair_sum_shift(ts, i, j, 1);
    if !rel && j > 0 {
        assert(i + 2 + 2 * (j - 1) == i + 2 * j);
    }
}

/// A lineto letter followed by `k` coordinate pairs emits `k` linetos, to the
/// start moved by the running sums of the pairs when relative and to the
/// pairs themselves when absolute; the pen ends at the last of them, and the
/// control point and subpath start stay.
pub proof fn lemma_line_run(ts: Seq<Token>, i: int, p: Pen, rel: bool, letter: Cmd, k: nat)
    requires
        0 <= i,
        numbers_at(ts, i, 2 * k),
        !is_number(ts, i + 2 * k),
    ensures
        run_from(ts, i, p, Some((Cmd::L, rel, letter))) == then(
            line_cmds(ts, i, p, rel, k),
            run_from(
                ts,
                i + 2 * k,
                Pen {
                    px: line_point(ts, i, p, rel, k).0,
                    py: line_point(ts, i, p, rel, k).1,
                    last: Some(letter),
                    ..p
                },
                None,
            ),
        ),
    decreases k,
{
    if k == 0 {
        assert(line_cmds(ts, i, p, rel, 0) =~= Seq::<Command>::empty());
        if let Ok(s) = run_from(ts, i, Pen { last: Some(letter), ..p }, None) {
            assert(Seq::<Command>::empty() + s =~= s);
        }
    } else {
        assert(is_number(ts, i) && is_number(ts, i + 1));
        lemma_line_step(ts, i, p, rel, letter);
        let p1 = line_pen(ts, i, p, rel, letter);
        let first = seq![
            Command::LineTo {
                x: line_point(ts, i, p, rel, 1).0 as i128,
                y: line_point(ts, i, p, rel, 1).1 as i128,
            },
        ];
        assert(numbers_at(ts, i + 2, (2 * k - 2) as nat)) by {
            assert forall|j: int| i + 2 <= j < i + 2 + (2 * k - 2) implies is_number(ts, j) by {
                assert(i <= j < i + 2 * k);
            }
        }
        assert(i + 2 + 2 * ((k - 1) as nat) == i + 2 * k);
        lemma_line_run(ts, i + 2, p1, rel, letter, (k - 1) as nat);
        lemma_line_point_shift(ts, i, p, rel, letter, (k - 1) as nat);
        let rest = line_cmds(ts, i + 2, p1, rel, (k - 1) as nat);
        assert forall|j: int| 0 <= j < k implies #[trigger] line_cmds(ts, i, p, rel, k)[j] == (first
            + rest)[j] by {
            if j > 0 {
                lemma_line_point_shift(ts, i, p, rel, letter, j as nat);
            }
        }
        assert(first + rest =~= line_cmds(ts, i, p, rel, k));
        let end = Pen {
            px: line_point(ts, i, p, rel, k).0,
            py: line_point(ts, i, p, rel, k).1,
            last: Some(letter),
            ..p
        };
        assert(Pen {
            px: line_point(ts, i + 2, p1, rel, (k - 1) as nat).0,
            py: line_point(ts, i + 2, p1, rel, (k - 1) as nat).1,
            last: Some(letter),
            ..p1
        } == end);
        lemma_then_then(first, rest, run_from(ts, i + 2 * k, end, None));
    }
}

/// The exec pen: `view` gives the `Pen` it stands for.
struct State {
    px: i128,
    py: i128,
    cx: i128,
    cy: i128,
    sx: i128,
    sy: i128,
    last: Option<Cmd>,
}

impl State {
    spec fn view(&self) -> Pen {
        Pen {
            px: self.px as int,
            py: self.py as int,
            cx: self.cx as int,
            cy: self.cy as int,
            sx: self.sx as int,
            sy: self.sy as int,
            last: self.last,
        }
    }

    fn delta(&self, rel: bool) -> (d: (i128, i128))
        ensures
            d.0 as int == offset(self.view(), rel).0,
            d.1 as int == offset(self.view(), rel).1,
    {
        if rel {
            (self.px, self.py)
        } else {
            (0, 0)
        }
    }

    fn move_to(&mut self, rel: bool, a: &Vec<i128>, out: &mut Vec<Command>)
        requires
            bounded(old(self).view(), PEN_LIMIT as int),
            a@.len() == 2,
            args_in_range(a@),
        ensures
            final(self).view() == move_to(rel, old(self).view(), a@).0,
            final(out)@ == old(out)@ + move_to(rel, old(self).view(), a@).1,
    {
        let (dx, dy) = self.delta(rel);
        assert(-LITERAL_LIMIT < a@[0] < LITERAL_LIMIT && -LITERAL_LIMIT < a@[1] < LITERAL_LIMIT);
        self.px = a[0] + dx;
        self.py = a[1] + dy;
        self.sx = self.px;
        self.sy = self.py;
        out.push(Command::MoveTo { x: self.px, y: self.py });
    }

    fn line_to(&mut self, rel: bool, a: &Vec<i128>, out: &mut Vec<Command>)
        requires
            bounded(old(self).view(), PEN_LIMIT as int),
            a@.len() == 2,
            args_in_range(a@),
        ensures
            final(self).view() == group(Cmd::L, rel, old(self).view(), a@).0,
            final(out)@ == old(out)@ + group(Cmd::L, rel, old(self).view(), a@).1,
    {
        let (dx, dy) = self.delta(rel);
        assert(-LITERAL_LIMIT < a@[0] < LITERAL_LIMIT && -LITERAL_LIMIT < a@[1] < LITERAL_LIMIT);
        self.px = a[0] + dx;
        self.py = a[1] + dy;
        out.push(Command::LineTo { x: self.px, y: self.py });
    }

    fn horizontal_to(&mut self, rel: bool, a: &Vec<i128>, out: &mut Vec<Command>)
        requires
            bounded(old(self).view(), PEN_LIMIT as int),
            a@.len() == 1,
            args_in_range(a@),
        ensures
            final(self).view() == group(Cmd::H, rel, old(self).view(), a@).0,
            final(out)@ == old(out)@ + group(Cmd::H, rel, old(self).view(), a@).1,
    {
        let (dx, _dy) = self.delta(rel);
        assert(-LITERAL_LIMIT < a@[0] < LITERAL_LIMIT);
        self.px = a[0] + dx;
        out.push(Command::LineTo { x: self.px, y: self.py });
    }

    fn vertical_to(&mut self, rel: bool, a: &Vec<i128>, out: &mut Vec<Command>)
        requires
            bounded(old(self).view(), PEN_LIMIT as int),
            a@.len() == 1,
            args_in_range(a@),
        ensures
            final(self).view() == group(Cmd::V, rel, old(self).view(), a@).0,
            final(out)@ == old(out)@ + group(Cmd::V, rel, old(self).view(), a@).1,
    {
        let (_dx, dy) = self.delta(rel);
        assert(-LITERAL_LIMIT < a@[0] < LITERAL_LIMIT);
        self.py = a[0] + dy;
        out.push(Command::LineTo { x: self.px, y: self.py });
    }

    fn curve_to(&mut self, rel: bool, a: &Vec<i128>, out: &mut Vec<Command>)
        requires
            bounded(old(self).view(), PEN_LIMIT as int),
            a@.len() == 6,
            args_in_range(a@),
        ensures
            final(self).view() == group(Cmd::C, rel, old(self).view(), a@).0,
            final(out)@ == old(out)@ + group(Cmd::C, rel, old(self).view(), a@).1,
    {
        let (dx, dy) = self.delta(rel);
        assert(-LITERAL_LIMIT < a@[0] < LITERAL_LIMIT && -LITERAL_LIMIT < a@[1] < LITERAL_LIMIT);
        assert(-LITERAL_LIMIT < a@[2] < LITERAL_LIMIT && -LITERAL_LIMIT < a@[3] < LITERAL_LIMIT);
        assert(-LITERAL_LIMIT < a@[4] < LITERAL_LIMIT && -LITERAL_LIMIT < a@[5] < LITERAL_LIMIT);
        self.px = a[4] + dx;
        self.py = a[5] + dy;
        self.cx = a[2] + dx;
        self.cy = a[3] + dy;
        out.push(
            Command::CurveTo {
                x1: a[0] + dx,
                y1: a[1] + dy,
                x2: self.cx,
                y2: self.cy,
                x: self.px,
                y: self.py,
            },
        );
    }

    /// The incoming control point of a smooth curve of family `f`.
    fn reflected(&self, f: Cmd) -> (r: (i128, i128))
        requires
            bounded(self.view(), PEN_LIMIT as int),
        ensures
            r.0 as int == incoming(self.view(), f).0,
            r.1 as int == incoming(self.view(), f).1,
    {
        let reflect = match f {
            Cmd::S => matches!(self.last, Some(Cmd::C) | Some(Cmd::S)),
            Cmd::T => matches!(self.last, Some(Cmd::Q) | Some(Cmd::T)),
            _ => false,
        };
        if reflect {
            (self.px + (self.px - self.cx), self.py + (self.py - self.cy))
        } else {
            (self.px, self.py)
        }
    }

    fn smooth_curve_to(&mut self, rel: bool, a: &Vec<i128>, out: &mut Vec<Command>)
        requires
            bounded(old(self).view(), PEN_LIMIT as int),
            a@.len() == 4,
            args_in_range(a@),
        ensures
            final(self).view() == group(Cmd::S, rel, old(self).view(), a@).0,
            final(out)@ == old(out)@ + group(Cmd::S, rel, old(self).view(), a@).1,
    {
        let (dx, dy) = self.delta(rel);
        assert(-LITERAL_LIMIT < a@[0] < LITERAL_LIMIT && -LITERAL_LIMIT < a@[1] < LITERAL_LIMIT);
        assert(-LITERAL_LIMIT < a@[2] < LITERAL_LIMIT && -LITERAL_LIMIT < a@[3] < LITERAL_LIMIT);
        let (ix, iy) = self.reflected(Cmd::S);
        self.px = a[2] + dx;
        self.py = a[3] + dy;
        self.cx = a[0] + dx;
        self.cy = a[1] + dy;
        out.push(
            Command::SmoothCurveTo {
                cx: ix,
                cy: iy,
                x2: self.cx,
                y2: self.cy,
                x: self.px,
                y: self.py,
            },
        );
    }

    fn quad_to(&mut self, rel: bool, a: &Vec<i128>, out: &mut Vec<Command>)
        requires
            bounded(old(self).view(), PEN_LIMIT as int),
            a@.len() == 4,
            args_in_range(a@),
        ensures
            final(self).view() == group(Cmd::Q, rel, old(self).view(), a@).0,
            final(out)@ == old(out)@ + group(Cmd::Q, rel, old(self).view(), a@).1,
    {
        let (dx, dy) = self.delta(rel);
        assert(-LITERAL_LIMIT < a@[0] < LITERAL_LIMIT && -LITERAL_LIMIT < a@[1] < LITERAL_LIMIT);
        assert(-LITERAL_LIMIT < a@[2] < LITERAL_LIMIT && -LITERAL_LIMIT < a@[3] < LITERAL_LIMIT);
        self.px = a[2] + dx;
        self.py = a[3] + dy;
        self.cx = a[0] + dx;
        self.cy = a[1] + dy;
        out.push(
            Command::QuadraticBezierCurveTo { x1: self.cx, y1: self.cy, x: self.px, y: self.py },
        );
    }

    fn smooth_quad_to(&mut self, rel: bool, a: &Vec<i128>, out: &mut Vec<Command>)
        requires
            bounded(old(self).view(), PEN_LIMIT as int),
            a@.len() == 2,
            args_in_range(a@),
        ensures
            final(self).view() == group(Cmd::T, rel, old(self).view(), a@).0,
            final(out)@ == old(out)@ + group(Cmd::T, rel, old(self).view(), a@).1,
    {
        let (dx, dy) = self.delta(rel);
        assert(-LITERAL_LIMIT < a@[0] < LITERAL_LIMIT && -LITERAL_LIMIT < a@[1] < LITERAL_LIMIT);
        let (ix, iy) = self.reflected(Cmd::T);
        self.px = a[0] + dx;
        self.py = a[1] + dy;
        out.push(
            Command::SmoothQuadraticBezierCurveTo { cx: ix, cy: iy, x: self.px, y: self.py },
        );
        self.cx = self.px;
        self.cy = self.py;
    }

    fn arc_to(&mut self, rel: bool, a: &Vec<i128>, out: &mut Vec<Command>)
        requires
            bounded(old(self).view(), PEN_LIMIT as int),
            a@.len() == 7,
            args_in_range(a@),
        ensures
            final(self).view() == group(Cmd::A, rel, old(self).view(), a@).0,
            final(out)@ == old(out)@ + group(Cmd::A, rel, old(self).view(), a@).1,
    {
        let (dx, dy) = self.delta(rel);
        assert(-LITERAL_LIMIT < a@[5] < LITERAL_LIMIT && -LITERAL_LIMIT < a@[6] < LITERAL_LIMIT);
        let start_x = self.px;
        let start_y = self.py;
        self.px = a[5] + dx;
        self.py = a[6] + dy;
        if a[0] != 0 && a[1] != 0 {
            out.push(
                Command::EllipticalArc {
                    px: start_x,
                    py: start_y,
                    rx: a[0],
                    ry: a[1],
                    x_axis_rotation: a[2],
                    large_arc_flag: a[3] != 0,
                    sweep_flag: a[4] != 0,
                    x: self.px,
                    y: self.py,
                },
            );
        } else {
            assert(old(out)@ + seq![] =~= old(out)@);
        }
        self.cx = self.px;
        self.cy = self.py;
    }

    /// One repetition of family `f`.
    fn apply(&mut self, f: Cmd, rel: bool, a: &Vec<i128>, out: &mut Vec<Command>)
        requires
            bounded(old(self).view(), PEN_LIMIT as int),
            f != Cmd::M && f != Cmd::Z,
            a@.len() == arity(f),
            args_in_range(a@),
        ensures
            final(self).view() == group(f, rel, old(self).view(), a@).0,
            final(out)@ == old(out)@ + group(f, rel, old(self).view(), a@).1,
    {
        match f {
            Cmd::L => self.line_to(rel, a, out),
            Cmd::H => self.horizontal_to(rel, a, out),
            Cmd::V => self.vertical_to(rel, a, out),
            Cmd::C => self.curve_to(rel, a, out),
            Cmd::S => self.smooth_curve_to(rel, a, out),
            Cmd::Q => self.quad_to(rel, a, out),
            Cmd::T => self.smooth_quad_to(rel, a, out),
            _ => self.arc_to(rel, a, out),
        }
    }
}

/// The `k` numbers from token `i`, if all `k` tokens there are numbers.
fn read_args(ts: &Vec<Token>, i: usize, k: usize) -> (r: Option<Vec<i128>>)
    requires
        i <= ts@.len(),
        tokens_in_range(ts@),
    ensures
        match r {
            Some(a) => {
                &&& numbers_at(ts@, i as int, k as nat)
                &&& a@ == args(ts@, i as int, k as nat)
                &&& args_in_range(a@)
                &&& i + k <= ts@.len()
            },
            None => !numbers_at(ts@, i as int, k as nat),
        },
{
    let mut a: Vec<i128> = Vec::new();
    let mut j: usize = 0;
    while j < k
        invariant
            j <= k,
            i + j <= ts@.len(),
            tokens_in_range(ts@),
            numbers_at(ts@, i as int, j as nat),
            a@ == args(ts@, i as int, j as nat),
            args_in_range(a@),
        decreases k - j,
    {
        if j >= ts.len() - i {
            assert(!is_number(ts@, i + j));
            return None;
        }
        match ts[i + j] {
            Token::Number(v) => {
                assert(token_in_range_at(ts@, i + j));
                a.push(v);
                assert(a@ =~= args(ts@, i as int, (j + 1) as nat));
            },
            _ => {
                assert(!is_number(ts@, i + j));
                return None;
            },
        }
        j = j + 1;
    }
    Some(a)
}

spec fn token_in_range_at(ts: Seq<Token>, j: int) -> bool {
    crate::lexer::token_in_range(ts[j])
}

/// Runs the repetitions of family `f` from token `i`; on success returns where
/// they ended.
fn repeat(
    ts: &Vec<Token>,
    i: usize,
    f: Cmd,
    rel: bool,
    letter: Cmd,
    st: &mut State,
    out: &mut Vec<Command>,
) -> (r: Result<usize, Expected>)
    requires
        i <= ts@.len(),
        tokens_in_range(ts@),
        bounded(old(st).view(), i * LITERAL_LIMIT),
        f != Cmd::M && f != Cmd::Z,
    ensures
        match r {
            Ok(j) => {
                &&& i <= j <= ts@.len()
                &&& bounded(final(st).view(), j * LITERAL_LIMIT)
                &&& then(old(out)@, run_from(ts@, i as int, old(st).view(), Some((f, rel, letter))))
                    == then(
                    final(out)@,
                    run_from(ts@, j as int, Pen { last: Some(letter), ..final(st).view() }, None),
                )
            },
            Err(e) => then(
                old(out)@,
                run_from(ts@, i as int, old(st).view(), Some((f, rel, letter))),
            ) == Err::<Seq<Command>, Expected>(e),
        },
{
    let k: usize = match f {
        Cmd::L => 2,
        Cmd::H => 1,
        Cmd::V => 1,
        Cmd::C => 6,
        Cmd::S => 4,
        Cmd::Q => 4,
        Cmd::T => 2,
        _ => 7,
    };
    let ghost mode = Some((f, rel, letter));
    let mut j = i;
    while j < ts.len() && matches!(ts[j], Token::Number(_))
        invariant
            i <= j <= ts@.len(),
            k == arity(f),
            mode == Some((f, rel, letter)),
            f != Cmd::M && f != Cmd::Z,
            tokens_in_range(ts@),
            bounded(st.view(), j * LITERAL_LIMIT),
            then(old(out)@, run_from(ts@, i as int, old(st).view(), mode)) == then(
                out@,
                run_from(ts@, j as int, st.view(), mode),
            ),
        decreases ts@.len() - j,
    {
        assert(is_number(ts@, j as int));
        match read_args(ts, j, k) {
            Some(a) => {
                let ghost before = out@;
                let ghost p = st.view();
                proof {
                    assert(is_number(ts@, j as int));
                    assert(arity(f) > 0);
                    assert(numbers_at(ts@, j as int, arity(f)));
                    let q = Pen { last: Some(letter), ..group(f, rel, p, a@).0 };
                    assert(run_from(ts@, j as int, p, mode) == then(
                        group(f, rel, p, a@).1,
                        run_from(ts@, j + k, q, mode),
                    ));
                    lemma_group_bounded(f, rel, p, a@, j * LITERAL_LIMIT);
                    lemma_then_then(before, group(f, rel, p, a@).1, run_from(ts@, j + k, q, mode));
                }
                st.apply(f, rel, &a, out);
                st.last = Some(letter);
                j = j + k;
            },
            None => {
                assert(run_from(ts@, j as int, st.view(), mode) == Err::<Seq<Command>, Expected>(
                    Expected::Number,
                ));
                return Err(Expected::Number);
            },
        }
    }
    Ok(j)
}

/// A parser over one path text.
pub struct Parser {
    tokens: Vec<Token>,
    bezier_steps: i32,
}

impl Parser {
    /// The tokens of the text.
    pub closed spec fn tokens(&self) -> Seq<Token> {
        self.tokens@
    }

    /// The number of segments each arc is flattened into.
    pub closed spec fn steps(&self) -> i32 {
        self.bezier_steps
    }

    pub closed spec fn wf(&self) -> bool {
        tokens_in_range(self.tokens@)
    }

    /// A parser over `path`, flattening arcs into 16 segments.
    pub fn new(path: &str) -> (p: Parser)
        ensures
            p.wf(),
            p.tokens() == lex(path.spec_bytes()),
            p.steps() == 16,
    {
        Parser { tokens: tokenize(path), bezier_steps: 16 }
    }

    /// The same parser with `bezier_steps` segments per flattened arc.
    pub fn bezier_steps(self, bezier_steps: i32) -> (p: Parser)
        ensures
            p.wf() == self.wf(),
            p.tokens() == self.tokens(),
            p.steps() == bezier_steps,
    {
        Parser { tokens: self.tokens, bezier_steps }
    }

    /// The number of segments each arc is flattened into.
    pub fn arc_steps(&self) -> (n: i32)
        ensures
            n == self.steps(),
    {
        self.bezier_steps
    }

    /// Parses the whole text: all its commands, or the first failure.
    #[verifier::rlimit(40)]
    pub fn parse(self) -> (r: Result<Vec<Command>, Expected>)
        requires
            self.wf(),
        ensures
            result_view(r) == parse_tokens(self.tokens()),
    {
        let ghost toks = self.tokens();
        let ts = self.tokens;
        assert(ts@ == toks);
        let mut st = State { px: 0, py: 0, cx: 0, cy: 0, sx: 0, sy: 0, last: None };
        let mut out: Vec<Command> = Vec::new();
        let mut i: usize = 0;
        assert(then(out@, run_from(ts@, 0, st.view(), None)) == run_from(ts@, 0, st.view(), None)) by {
            if let Ok(s) = run_from(ts@, 0, st.view(), None) {
                assert(out@ + s =~= s);
            }
        }
        while i < ts.len()
            invariant
                i <= ts@.len(),
                ts@ == toks,
                toks == self.tokens(),
                tokens_in_range(ts@),
                bounded(st.view(), i * LITERAL_LIMIT),
                parse_tokens(ts@) == then(out@, run_from(ts@, i as int, st.view(), None)),
            decreases ts@.len() - i,
        {
            match ts[i] {
                Token::Number(_) | Token::Invalid => {
                    assert(!(ts@[i as int] is Command));
                    assert(run_from(ts@, i as int, st.view(), None) == Err::<Seq<Command>, Expected>(
                        Expected::Command,
                    ));
                    return Err(Expected::Command);
                },
                Token::Command(c, rel) => {
                    let n = i + 1;
                    let ghost p0 = st.view();
                    assert(ts@[i as int] == Token::Command(c, rel));
                    match c {
                        Cmd::Z => {
                            let ghost before = out@;
                            st.px = st.sx;
                            st.py = st.sy;
                            st.last = Some(Cmd::Z);
                            out.push(Command::ClosePath);
                            proof {
                                assert(out@ =~= before + seq![Command::ClosePath]);
                                assert(run_from(ts@, i as int, p0, None) == then(
                                    seq![Command::ClosePath],
                                    run_from(ts@, n as int, st.view(), None),
                                ));
                                lemma_then_then(
                                    before,
                                    seq![Command::ClosePath],
                                    run_from(ts@, n as int, st.view(), None),
                                );
                            }
                            i = n;
                        },
                        Cmd::M => {
                            match read_args(&ts, n, 2) {
                                Some(a) => {
                                    let ghost before = out@;
                                    let ghost p = st.view();
                                    proof {
                                        assert(run_from(ts@, i as int, p0, None) == then(
                                            move_to(rel, p, a@).1,
                                            run_from(ts@, n + 2, move_to(rel, p, a@).0, Some((Cmd::L, rel, Cmd::M))),
                                        ));
                                        lemma_then_then(
                                            before,
                                            move_to(rel, p, a@).1,
                                            run_from(ts@, n + 2, move_to(rel, p, a@).0, Some((Cmd::L, rel, Cmd::M))),
                                        );
                                    }
                                    st.move_to(rel, &a, &mut out);
                                    match repeat(&ts, n + 2, Cmd::L, rel, Cmd::M, &mut st, &mut out) {
                                        Ok(j) => {
                                            st.last = Some(Cmd::M);
                                            i = j;
                                        },
                                        Err(e) => {
                                            return Err(e);
                                        },
                                    }
                                },
                                None => {
                                    assert(ts@[i as int] == Token::Command(Cmd::M, rel));
                                    assert(run_from(ts@, i as int, st.view(), None) == Err::<
                                        Seq<Command>,
                                        Expected,
                                    >(Expected::Number));
                                    return Err(Expected::Number);
                                },
                            }
                        },
                        _ => {
                            assert(run_from(ts@, i as int, p0, None) == run_from(
                                ts@,
                                n as int,
                                p0,
                                Some((c, rel, c)),
                            ));
                            match repeat(&ts, n, c, rel, c, &mut st, &mut out) {
                                Ok(j) => {
                                    st.last = Some(c);
                                    i = j;
                                },
                                Err(e) => {
                                    return Err(e);
                                },
                            }
                        },
                    }
                },
            }
        }
        assert(out@ + seq![] =~= out@);
        Ok(out)
    }
}

/// The commands of `path`, or the first failure.
pub fn parse_path_str(path: &str) -> (r: Result<Vec<Command>, Expected>)
    ensures
        result_view(r) == parse_text(path.spec_bytes()),
{
    Parser::new(path).parse()
}

} // verus!
