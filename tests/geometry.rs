use scavenger::arc::{flatten_arcs, push_arc_segments};
use scavenger::lexer::UNIT;
use scavenger::path::Path;
use scavenger::viewbox::{estimate_dimensions, ViewBox};
use scavenger::{parse_path_str, Command};

fn u(v: i128) -> i128 {
    v * UNIT
}

#[test]
fn dimensions_include_origin_and_control_points() {
    let cmds = vec![
        Command::MoveTo { x: u(5), y: u(5) },
        Command::CurveTo { x1: u(2), y1: u(9), x2: u(8), y2: u(-3), x: u(10), y: u(6) },
    ];
    assert_eq!(estimate_dimensions(&cmds), (u(10), u(12)));
    assert_eq!(estimate_dimensions(&[]), (0, 0));
    assert_eq!(estimate_dimensions(&[Command::ClosePath]), (0, 0));
}

#[test]
fn scale_cmd_maps_into_frame() {
    let vb = ViewBox::new(u(10), u(20), u(100), u(50));
    let c = vb.scale_cmd(&Command::LineTo { x: u(60), y: u(45) }, u(200), u(10));
    assert_eq!(c, Command::LineTo { x: u(100), y: u(5) });
    assert_eq!(vb.scale_cmd(&Command::ClosePath, u(1), u(1)), Command::ClosePath);
}

#[test]
fn scale_path_uses_its_own_span() {
    let vb = ViewBox::new(0, 0, u(20), u(20));
    let path = vec![Command::MoveTo { x: u(10), y: u(4) }, Command::LineTo { x: u(-10), y: u(8) }];
    let out = vb.scale_path(&path);
    assert_eq!(
        out,
        vec![
            Command::MoveTo { x: u(10), y: 1_600_000 },
            Command::LineTo { x: u(-10), y: 3_200_000 },
        ]
    );
    let mut inplace = path.clone();
    vb.scale_path_mut(&mut inplace);
    assert_eq!(inplace, out);
    let mut it = vb.scale_iter(&path);
    assert_eq!(it.next(), Some(out[0]));
    assert_eq!(it.next(), Some(out[1]));
    assert_eq!(it.next(), None);
}

#[test]
fn resize_to_own_span_is_identity() {
    let cmds = parse_path_str("M 1 2 C 3 4 5 -6 7 8 Q 9 1 2 3 Z").unwrap();
    let mut p = Path::new(cmds.clone());
    let (w, h) = p.bb();
    assert_eq!((w, h), (u(9), u(14)));
    p.resize(w, h);
    assert_eq!(p.commands(), &cmds[..]);
}

#[test]
fn resize_scales_axes_independently() {
    let mut p = Path::new(vec![Command::MoveTo { x: u(4), y: u(2) }]);
    p.resize(u(8), u(1));
    assert_eq!(p.commands(), &[Command::MoveTo { x: u(8), y: u(1) }][..]);
    assert_eq!(p.bb(), (u(4), u(2)));
}

#[test]
fn uniform_scale() {
    let mut p = Path::new(vec![Command::LineTo { x: u(3), y: u(-2) }]);
    p.scale(2_500_000);
    assert_eq!(p.take_commands(), vec![Command::LineTo { x: 7_500_000, y: u(-5) }]);
}

#[test]
fn fit_uses_smaller_factor() {
    let mut p = Path::new(vec![Command::LineTo { x: u(10), y: u(5) }]);
    p.fit(u(20), u(20));
    assert_eq!(p.commands(), &[Command::LineTo { x: u(20), y: u(10) }][..]);
}

#[test]
fn cover_uses_larger_factor() {
    let mut p = Path::new(vec![Command::LineTo { x: u(10), y: u(5) }]);
    p.cover(u(20), u(20));
    assert_eq!(p.commands(), &[Command::LineTo { x: u(40), y: u(20) }][..]);
}

#[test]
fn translate_moves_every_point() {
    let mut p = Path::new(parse_path_str("M 1 1 L 2 3 Z").unwrap());
    p.translate(u(10), u(-1));
    assert_eq!(
        p.take_commands(),
        vec![
            Command::MoveTo { x: u(11), y: 0 },
            Command::LineTo { x: u(12), y: u(2) },
            Command::ClosePath,
        ]
    );
}

#[test]
fn arc_segments_pass_through_samples() {
    let samples = vec![(u(10), 0), (7_071_068, 7_071_068), (0, u(10))];
    let mut out = vec![Command::MoveTo { x: u(10), y: 0 }];
    push_arc_segments(&mut out, &samples);
    assert_eq!(out.len(), 3);
    assert_eq!(out[1], Command::LineTo { x: u(10), y: 0 });
    assert_eq!(
        out[2],
        Command::SmoothQuadraticBezierCurveTo { cx: 9_142_136, cy: 9_142_136, x: 0, y: u(10) }
    );
}

#[test]
fn arc_segments_one_per_step() {
    let samples: Vec<(i128, i128)> = (0..9).map(|i| (u(i), u(2 * i))).collect();
    let mut out = Vec::new();
    push_arc_segments(&mut out, &samples);
    assert_eq!(out.len(), 5);
    assert_eq!(out[0], Command::LineTo { x: 0, y: 0 });
    assert_eq!(
        out[4],
        Command::SmoothQuadraticBezierCurveTo { cx: u(7), cy: u(14), x: u(8), y: u(16) }
    );
}

#[test]
fn flatten_replaces_each_arc_by_its_segments() {
    let cmds = parse_path_str("M 0 0 A 5 5 0 0 1 10 0 L 1 1 A 5 5 0 0 1 20 0").unwrap();
    assert_eq!(cmds.len(), 4);
    let first = vec![(0, 0), (u(5), u(5)), (u(10), 0)];
    let out = flatten_arcs(&cmds, &[first, Vec::new()]);
    assert_eq!(
        out,
        vec![
            Command::MoveTo { x: 0, y: 0 },
            Command::LineTo { x: 0, y: 0 },
            Command::SmoothQuadraticBezierCurveTo { cx: u(5), cy: u(10), x: u(10), y: 0 },
            Command::LineTo { x: u(1), y: u(1) },
        ]
    );
}

#[test]
fn control_point_rounds_toward_zero() {
    let samples = vec![(0, 0), (0, 0), (-1, 1)];
    let mut out = Vec::new();
    push_arc_segments(&mut out, &samples);
    assert_eq!(out[1], Command::SmoothQuadraticBezierCurveTo { cx: 0, cy: 0, x: -1, y: 1 });
}

#[test]
fn negative_frame_width_mirrors() {
    let vb = ViewBox::new(0, 0, u(-10), u(10));
    let c = vb.scale_cmd(&Command::LineTo { x: u(5), y: u(5) }, u(20), u(20));
    assert_eq!(c, Command::LineTo { x: u(-10), y: u(10) });
}
