use scavenger::lexer::{tokenize, Cmd, Token, UNIT};
use scavenger::{parse_path_str, Command, Expected, Parser};

fn u(v: i128) -> i128 {
    v * UNIT
}

#[test]
fn moveto_then_bare_pairs_become_linetos() {
    let cmds = parse_path_str("M 0 0 10 10 20 5").unwrap();
    assert_eq!(
        cmds,
        vec![
            Command::MoveTo { x: 0, y: 0 },
            Command::LineTo { x: u(10), y: u(10) },
            Command::LineTo { x: u(20), y: u(5) },
        ]
    );
}

#[test]
fn relative_and_absolute_reach_the_same_end() {
    let rel = parse_path_str("M 0 0 l 10 0 0 10").unwrap();
    let abs = parse_path_str("M 0 0 L 10 0 10 10").unwrap();
    assert_eq!(rel.last(), abs.last());
    assert_eq!(rel, abs);
    assert_eq!(rel[1], Command::LineTo { x: u(10), y: 0 });
    assert_eq!(rel[2], Command::LineTo { x: u(10), y: u(10) });
    let rel2 = parse_path_str("M 0 0 l 10 0 10 10").unwrap();
    let abs2 = parse_path_str("M 0 0 L 10 0 10 10").unwrap();
    assert_ne!(rel2[2], abs2[2]);
    assert_eq!(rel2[2], Command::LineTo { x: u(20), y: u(10) });
}

#[test]
fn smooth_cubic_reflects_previous_control_point() {
    let cmds = parse_path_str("M 0 0 C 0 10 10 10 10 0 S 20 -10 20 0").unwrap();
    assert_eq!(cmds.len(), 3);
    assert_eq!(
        cmds[2],
        Command::SmoothCurveTo {
            cx: u(10),
            cy: u(-10),
            x2: u(20),
            y2: u(-10),
            x: u(20),
            y: 0,
        }
    );
}

#[test]
fn smooth_cubic_without_previous_curve_starts_at_current_point() {
    let cmds = parse_path_str("M 3 4 S 20 -10 20 0").unwrap();
    assert_eq!(
        cmds[1],
        Command::SmoothCurveTo {
            cx: u(3),
            cy: u(4),
            x2: u(20),
            y2: u(-10),
            x: u(20),
            y: 0,
        }
    );
}

#[test]
fn smooth_quadratic_reflects_after_quadratic() {
    let cmds = parse_path_str("M 0 0 Q 5 10 10 0 T 20 0").unwrap();
    assert_eq!(
        cmds[1],
        Command::QuadraticBezierCurveTo { x1: u(5), y1: u(10), x: u(10), y: 0 }
    );
    assert_eq!(
        cmds[2],
        Command::SmoothQuadraticBezierCurveTo { cx: u(15), cy: u(-10), x: u(20), y: 0 }
    );
    let next = parse_path_str("M 0 0 Q 5 10 10 0 T 20 0 T 30 0").unwrap();
    assert_eq!(
        next[3],
        Command::SmoothQuadraticBezierCurveTo { cx: u(20), cy: 0, x: u(30), y: 0 }
    );
}

#[test]
fn close_path_returns_to_subpath_start() {
    let cmds = parse_path_str("M 5 5 L 20 20 Z L 1 1").unwrap();
    assert_eq!(
        cmds,
        vec![
            Command::MoveTo { x: u(5), y: u(5) },
            Command::LineTo { x: u(20), y: u(20) },
            Command::ClosePath,
            Command::LineTo { x: u(1), y: u(1) },
        ]
    );
    let rel = parse_path_str("M 5 5 L 20 20 Z l 1 1").unwrap();
    assert_eq!(rel[3], Command::LineTo { x: u(6), y: u(6) });
}

#[test]
fn degenerate_arc_emits_nothing_but_moves_the_pen() {
    let cmds = parse_path_str("M 0 0 A 0 5 0 0 1 10 10 l 1 1").unwrap();
    assert_eq!(
        cmds,
        vec![Command::MoveTo { x: 0, y: 0 }, Command::LineTo { x: u(11), y: u(11) }]
    );
    let other = parse_path_str("M 0 0 a 7 0 0 1 0 10 10 l 1 1").unwrap();
    assert_eq!(other.len(), 2);
    assert_eq!(other[1], Command::LineTo { x: u(11), y: u(11) });
}

#[test]
fn arc_keeps_its_parameters() {
    let cmds = parse_path_str("M 10 315 L 110 215 A 36 60 0 0 1 150.71 170.29").unwrap();
    assert_eq!(
        cmds[2],
        Command::EllipticalArc {
            px: u(110),
            py: u(215),
            rx: u(36),
            ry: u(60),
            x_axis_rotation: 0,
            large_arc_flag: false,
            sweep_flag: true,
            x: 150_710_000,
            y: 170_290_000,
        }
    );
}

#[test]
fn missing_number_fails() {
    assert_eq!(parse_path_str("M 1"), Err(Expected::Number));
    assert_eq!(parse_path_str("M 1 1 L 2"), Err(Expected::Number));
    assert_eq!(parse_path_str("M 1 1 C 1 2 3 4 5"), Err(Expected::Number));
}

#[test]
fn number_without_command_fails() {
    assert_eq!(parse_path_str("5 5"), Err(Expected::Command));
    assert_eq!(parse_path_str("M 1 1 Z 3"), Err(Expected::Command));
}

#[test]
fn parsing_is_deterministic() {
    let text = "M 10 315 L 110 215 A 36 60 0 0 1 150.71 170.29 L 172.55 152.45";
    assert_eq!(parse_path_str(text), parse_path_str(text));
    assert_eq!(parse_path_str(text), Parser::new(text).parse());
}

#[test]
fn empty_text_gives_no_commands() {
    assert_eq!(parse_path_str(""), Ok(vec![]));
    assert_eq!(parse_path_str(" ,\t\r\n"), Ok(vec![]));
}

#[test]
fn unknown_letter_fails() {
    assert_eq!(parse_path_str("M 1 1 X 5 5"), Err(Expected::Command));
    assert_eq!(parse_path_str("M 0 0 X 1 1"), Err(Expected::Command));
    assert_eq!(parse_path_str("M 1 1 L 2 #"), Err(Expected::Number));
    assert_eq!(parse_path_str("M 1 1 L 2 3 e"), Err(Expected::Command));
}

#[test]
fn overlong_literal_fails() {
    assert_eq!(parse_path_str("M 0 0 L 1234567890123 5"), Err(Expected::Command));
    assert_eq!(parse_path_str("M 0 0 L 5 1234567890123"), Err(Expected::Number));
}

#[test]
fn repeated_smooth_cubic_groups_reflect() {
    let cmds = parse_path_str("M 0 0 S 10 10 20 0 30 -10 40 0").unwrap();
    assert_eq!(
        cmds,
        vec![
            Command::MoveTo { x: 0, y: 0 },
            Command::SmoothCurveTo { cx: 0, cy: 0, x2: u(10), y2: u(10), x: u(20), y: 0 },
            Command::SmoothCurveTo {
                cx: u(30),
                cy: u(-10),
                x2: u(30),
                y2: u(-10),
                x: u(40),
                y: 0,
            },
        ]
    );
}

#[test]
fn repeated_smooth_quadratic_groups_reflect() {
    let cmds = parse_path_str("M 0 0 T 10 10 20 0").unwrap();
    assert_eq!(
        cmds[1],
        Command::SmoothQuadraticBezierCurveTo { cx: 0, cy: 0, x: u(10), y: u(10) }
    );
    assert_eq!(
        cmds[2],
        Command::SmoothQuadraticBezierCurveTo { cx: u(10), cy: u(10), x: u(20), y: 0 }
    );
}

#[test]
fn horizontal_and_vertical_lines() {
    let cmds = parse_path_str("M 1 2 H 5 v 3 h -1 V 0").unwrap();
    assert_eq!(
        cmds,
        vec![
            Command::MoveTo { x: u(1), y: u(2) },
            Command::LineTo { x: u(5), y: u(2) },
            Command::LineTo { x: u(5), y: u(5) },
            Command::LineTo { x: u(4), y: u(5) },
            Command::LineTo { x: u(4), y: 0 },
        ]
    );
}

#[test]
fn relative_cubic_offsets_every_point() {
    let cmds = parse_path_str("m 1 1 c 1 2 3 4 5 6").unwrap();
    assert_eq!(
        cmds[1],
        Command::CurveTo { x1: u(2), y1: u(3), x2: u(4), y2: u(5), x: u(6), y: u(7) }
    );
}

#[test]
fn bezier_steps_is_configurable() {
    let p = Parser::new("M 0 0");
    assert_eq!(p.arc_steps(), 16);
    let p = p.bezier_steps(8);
    assert_eq!(p.arc_steps(), 8);
    assert_eq!(p.parse(), Ok(vec![Command::MoveTo { x: 0, y: 0 }]));
}

#[test]
fn command_letters_map_to_families() {
    assert_eq!(Cmd::map('M'), Some((Cmd::M, false)));
    assert_eq!(Cmd::map('m'), Some((Cmd::M, true)));
    assert_eq!(Cmd::map('a'), Some((Cmd::A, true)));
    assert_eq!(Cmd::map('Z'), Some((Cmd::Z, false)));
    assert_eq!(Cmd::map('x'), None);
    assert_eq!(Cmd::map('5'), None);
}

#[test]
fn number_lexemes() {
    assert_eq!(
        tokenize("-.5 1.5.5 0123"),
        vec![
            Token::Number(-500_000),
            Token::Number(1_500_000),
            Token::Number(500_000),
            Token::Number(0),
            Token::Number(123_000_000),
        ]
    );
    assert_eq!(tokenize("10-5"), vec![Token::Number(10_000_000), Token::Number(-5_000_000)]);
    assert_eq!(tokenize("-"), vec![Token::Number(0)]);
    assert_eq!(tokenize("0.12345678"), vec![Token::Number(123_456)]);
    assert_eq!(tokenize("1e5"), vec![Token::Number(1_000_000), Token::Invalid]);
}

#[test]
fn overlong_integer_part_is_invalid() {
    assert_eq!(
        tokenize("999999999999 1000000000000 5"),
        vec![Token::Number(999_999_999_999_000_000), Token::Invalid]
    );
}

#[test]
fn command_tokens_carry_relative_flag() {
    assert_eq!(
        tokenize("M1,2l3 4"),
        vec![
            Token::Command(Cmd::M, false),
            Token::Number(1_000_000),
            Token::Number(2_000_000),
            Token::Command(Cmd::L, true),
            Token::Number(3_000_000),
            Token::Number(4_000_000),
        ]
    );
}
