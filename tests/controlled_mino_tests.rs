use tetris::controlled_mino::{ControlledMino, Orientation};
use tetris::field::Field;
use tetris::mino::Mino;

struct RenderCase {
    name: String,
    x: ControlledMino,
    want: Vec<Vec<bool>>,
}

struct RotateCase {
    name: String,
    x: Orientation,
    field: Vec<Vec<bool>>,
    want: i32,
}

struct KickCase {
    name: String,
    x: ControlledMino,
    field: Vec<Vec<bool>>,
    want: (i64, i64, Orientation),
}

struct MoveCase {
    name: String,
    x: ControlledMino,
    move_ori: Orientation,
    want: (i64, i64, bool),
}

#[test]
fn test_render() {
    let cases = vec![
        RenderCase {
            name: "upward".to_string(),
            x: ControlledMino {
                x: 0,
                y: 0,
                mino: Mino::T,
                ori: Orientation::Upward,
                grounded: false,
            },
            want: vec![
                vec![false, true, false],
                vec![true, true, true],
                vec![false, false, false],
            ],
        },
        RenderCase {
            name: "right".to_string(),
            x: ControlledMino {
                x: 0,
                y: 0,
                ori: Orientation::Rightward,
                grounded: false,
                mino: Mino::T,
            },
            want: vec![
                vec![false, true, false],
                vec![false, true, true],
                vec![false, true, false],
            ],
        },
        RenderCase {
            name: "downward".to_string(),
            x: ControlledMino {
                x: 0,
                y: 0,
                mino: Mino::T,
                ori: Orientation::Downward,
                grounded: false,
            },
            want: vec![
                vec![false, false, false],
                vec![true, true, true],
                vec![false, true, false],
            ],
        },
        RenderCase {
            name: "left".to_string(),
            x: ControlledMino {
                x: 0,
                y: 0,
                mino: Mino::T,
                ori: Orientation::Leftward,
                grounded: false,
            },
            want: vec![
                vec![false, true, false],
                vec![true, true, false],
                vec![false, true, false],
            ],
        },
    ];

    for case in cases {
        assert_eq!(case.x.render(), case.want, "case {}: failed", case.name)
    }
}

#[test]
fn test_right_rotate() {
    let cases = vec![
        RotateCase {
            name: "valid upward".to_string(),
            x: Orientation::Upward,
            field: vec![
                vec![false, false, false],
                vec![false, false, false],
                vec![false, false, false],
            ],
            want: 1,
        },
        RotateCase {
            name: "invalid upward".to_string(),
            x: Orientation::Upward,
            field: vec![
                vec![false, false, false],
                vec![false, false, false],
                vec![false, true, false],
            ],
            want: 0,
        },
        RotateCase {
            name: "invalid bordering upward".to_string(),
            x: Orientation::Upward,
            field: vec![vec![false, false, false], vec![false, false, false]],
            want: 0,
        },
        RotateCase {
            name: "valid rightward".to_string(),
            x: Orientation::Rightward,
            field: vec![
                vec![false, false, false],
                vec![false, false, false],
                vec![false, false, false],
            ],
            want: 2,
        },
        RotateCase {
            name: "invalid rightward".to_string(),
            x: Orientation::Rightward,
            field: vec![
                vec![false, false, false],
                vec![true, false, false],
                vec![false, false, false],
            ],
            want: 1,
        },
        RotateCase {
            name: "valid downward".to_string(),
            x: Orientation::Downward,
            field: vec![
                vec![false, false, false],
                vec![false, false, false],
                vec![false, false, false],
            ],
            want: 3,
        },
        RotateCase {
            name: "invalid downward".to_string(),
            x: Orientation::Downward,
            field: vec![
                vec![false, true, false],
                vec![false, false, false],
                vec![false, false, false],
            ],
            want: 2,
        },
        RotateCase {
            name: "valid leftward".to_string(),
            x: Orientation::Leftward,
            field: vec![
                vec![false, false, false],
                vec![false, false, false],
                vec![false, false, false],
            ],
            want: 0,
        },
        RotateCase {
            name: "invalid leftward".to_string(),
            x: Orientation::Leftward,
            field: vec![
                vec![false, false, false],
                vec![false, false, true],
                vec![false, false, false],
            ],
            want: 3,
        },
        RotateCase {
            name: "invalid bordering leftward".to_string(),
            x: Orientation::Leftward,
            field: vec![vec![false, false], vec![false, false], vec![false, false]],
            want: 3,
        },
    ];

    let mut m = ControlledMino {
        x: 0,
        y: 0,
        mino: Mino::T,
        ori: Orientation::Upward,
        grounded: false,
    };
    for case in cases {
        let height = case.field.len();
        let width = case.field[0].len();
        let mut f = Field::new(height, width);
        for i in 0..height {
            for j in 0..width {
                f.set_block_filled(i, j, case.field[i][j]);
            }
        }
        m.ori = case.x;
        m.right_rotate(&f);
        let result = match m.ori {
            Orientation::Upward => 0,
            Orientation::Rightward => 1,
            Orientation::Downward => 2,
            Orientation::Leftward => 3,
        };
        assert_eq!(result, case.want, "case {}: failed", case.name)
    }
}

#[test]
fn test_left_rotate() {
    let cases = vec![
        RotateCase {
            name: "valid upward".to_string(),
            x: Orientation::Upward,
            field: vec![
                vec![false, false, false],
                vec![false, false, false],
                vec![false, false, false],
            ],
            want: 3,
        },
        RotateCase {
            name: "invalid upward".to_string(),
            x: Orientation::Upward,
            field: vec![
                vec![false, false, false],
                vec![false, false, false],
                vec![false, true, false],
            ],
            want: 0,
        },
        RotateCase {
            name: "invalid bordering upward".to_string(),
            x: Orientation::Upward,
            field: vec![vec![false, false, false], vec![false, false, false]],
            want: 0,
        },
        RotateCase {
            name: "valid rightward".to_string(),
            x: Orientation::Rightward,
            field: vec![
                vec![false, false, false],
                vec![false, false, false],
                vec![false, false, false],
            ],
            want: 0,
        },
        RotateCase {
            name: "invalid rightward".to_string(),
            x: Orientation::Rightward,
            field: vec![
                vec![false, false, false],
                vec![true, false, false],
                vec![false, false, false],
            ],
            want: 1,
        },
        RotateCase {
            name: "valid downward".to_string(),
            x: Orientation::Downward,
            field: vec![
                vec![false, false, false],
                vec![false, false, false],
                vec![false, false, false],
            ],
            want: 1,
        },
        RotateCase {
            name: "invalid downward".to_string(),
            x: Orientation::Downward,
            field: vec![
                vec![false, true, false],
                vec![false, false, false],
                vec![false, false, false],
            ],
            want: 2,
        },
        RotateCase {
            name: "valid leftward".to_string(),
            x: Orientation::Leftward,
            field: vec![
                vec![false, false, false],
                vec![false, false, false],
                vec![false, false, false],
            ],
            want: 2,
        },
        RotateCase {
            name: "invalid leftward".to_string(),
            x: Orientation::Leftward,
            field: vec![
                vec![false, false, false],
                vec![false, false, true],
                vec![false, false, false],
            ],
            want: 3,
        },
        RotateCase {
            name: "invalid bordering leftward".to_string(),
            x: Orientation::Leftward,
            field: vec![vec![false, false], vec![false, false], vec![false, false]],
            want: 3,
        },
    ];

    let mut m = ControlledMino {
        x: 0,
        y: 0,
        mino: Mino::T,
        ori: Orientation::Upward,
        grounded: false,
    };
    for case in cases {
        let height = case.field.len();
        let width = case.field[0].len();
        let mut f = Field::new(height, width);
        for i in 0..height {
            for j in 0..width {
                f.set_block_filled(i, j, case.field[i][j]);
            }
        }
        m.ori = case.x;
        m.left_rotate(&f);
        let result = match m.ori {
            Orientation::Upward => 0,
            Orientation::Rightward => 1,
            Orientation::Downward => 2,
            Orientation::Leftward => 3,
        };
        assert_eq!(result, case.want, "case {}: failed", case.name)
    }
}

#[test]
fn test_right_rotate_with_srs() {
    let mut cases = vec![
        KickCase {
            name: "TMino is pointing left and pattern 0".to_string(),
            x: ControlledMino {
                x: 0,
                y: 0,
                mino: Mino::T,
                ori: Orientation::Rightward,
                grounded: false,
            },
            field: vec![
                vec![true, false, false],
                vec![false, false, false],
                vec![true, false, true],
            ],
            want: (0, 0, Orientation::Downward),
        },
        KickCase {
            name: "TMino is pointing up and pattern 1".to_string(),
            x: ControlledMino {
                x: 0,
                y: 0,
                mino: Mino::T,
                ori: Orientation::Upward,
                grounded: false,
            },
            field: vec![
                vec![false, false, false],
                vec![false, false, false],
                vec![false, true, true],
            ],
            want: (-1, 0, Orientation::Rightward),
        },
        KickCase {
            name: "TMino is pointing up and pattern 2".to_string(),
            x: ControlledMino {
                x: 1,
                y: 0,
                mino: Mino::T,
                ori: Orientation::Leftward,
                grounded: false,
            },
            field: vec![
                vec![false, false, false],
                vec![true, false, false],
                vec![false, false, false],
            ],
            want: (0, 1, Orientation::Upward),
        },
        KickCase {
            name: "TMino is pointing down and pattern 3".to_string(),
            x: ControlledMino {
                x: 0,
                y: 0,
                mino: Mino::T,
                ori: Orientation::Downward,
                grounded: false,
            },
            field: vec![
                vec![false, true, true],
                vec![false, false, false],
                vec![true, false, true],
                vec![false, false, true],
                vec![false, false, true],
            ],
            want: (0, 2, Orientation::Leftward),
        },
        KickCase {
            name: "TMino is pointing up and pattern 4".to_string(),
            x: ControlledMino {
                x: 0,
                y: 0,
                mino: Mino::T,
                ori: Orientation::Upward,
                grounded: false,
            },
            field: vec![
                vec![true, false, false],
                vec![false, false, false],
                vec![false, true, true],
                vec![false, false, true],
                vec![false, true, true],
            ],
            want: (-1, 2, Orientation::Rightward),
        },
        KickCase {
            name: "IMino is pointing right and pattern 1".to_string(),
            x: ControlledMino {
                x: 1,
                y: 0,
                mino: Mino::I,
                ori: Orientation::Rightward,
                grounded: false,
            },
            field: vec![
                vec![false, false, true, false, true],
                vec![false, false, true, false, true],
                vec![false, false, false, false, true],
                vec![false, false, true, false, true],
            ],
            want: (0, 0, Orientation::Downward),
        },
        KickCase {
            name: "IMino is pointing right and pattern 2".to_string(),
            x: ControlledMino {
                x: -2,
                y: 0,
                mino: Mino::I,
                ori: Orientation::Rightward,
                grounded: false,
            },
            field: vec![
                vec![false, true, true, true],
                vec![false, true, true, true],
                vec![false, false, false, false],
                vec![false, true, true, true],
            ],
            want: (0, 0, Orientation::Downward),
        },
        KickCase {
            name: "IMino is pointing up and pattern 3".to_string(),
            x: ControlledMino {
                x: 0,
                y: 1,
                mino: Mino::I,
                ori: Orientation::Upward,
                grounded: false,
            },
            field: vec![
                vec![true, false, false, false],
                vec![false, false, false, false],
                vec![false, true, true, true],
                vec![false, true, true, true],
                vec![false, true, true, true],
            ],
            want: (-2, 1, Orientation::Rightward),
        },
        KickCase {
            name: "IMino is pointing right and pattern 4".to_string(),
            x: ControlledMino {
                x: -2,
                y: 0,
                mino: Mino::I,
                ori: Orientation::Rightward,
                grounded: false,
            },
            field: vec![
                vec![false, true, true, true],
                vec![false, true, true, true],
                vec![false, true, true, true],
                vec![false, false, false, false],
            ],
            want: (0, 1, Orientation::Downward),
        },
    ];

    for case in &mut cases {
        let height = case.field.len();
        let width = case.field[0].len();
        let mut f = Field::new(height, width);
        for i in 0..height {
            for j in 0..width {
                f.set_block_filled(i, j, case.field[i][j]);
            }
        }

        case.x.right_rotate_with_srs(&f);

        assert_eq!(
            (case.x.x, case.x.y, case.x.ori),
            case.want,
            "case {}: failed",
            case.name
        );
    }
}

#[test]
fn test_left_rotate_with_srs() {
    let mut cases = vec![
        KickCase {
            name: "TMino is pointing left and pattern 0".to_string(),
            x: ControlledMino {
                x: 0,
                y: 0,
                mino: Mino::T,
                ori: Orientation::Leftward,
                grounded: false,
            },
            field: vec![
                vec![false, false, true],
                vec![false, false, false],
                vec![true, false, true],
            ],
            want: (0, 0, Orientation::Downward),
        },
        KickCase {
            name: "TMino is pointing up and pattern 1".to_string(),
            x: ControlledMino {
                x: 0,
                y: 0,
                mino: Mino::T,
                ori: Orientation::Upward,
                grounded: false,
            },
            field: vec![
                vec![false, false, false],
                vec![false, false, false],
                vec![true, true, false],
            ],
            want: (1, 0, Orientation::Leftward),
        },
        KickCase {
            name: "TMino is pointing up and pattern 2".to_string(),
            x: ControlledMino {
                x: -1,
                y: 0,
                mino: Mino::T,
                ori: Orientation::Rightward,
                grounded: false,
            },
            field: vec![
                vec![false, false, false],
                vec![false, false, true],
                vec![false, false, false],
            ],
            want: (0, 1, Orientation::Upward),
        },
        KickCase {
            name: "TMino is pointing down and pattern 3".to_string(),
            x: ControlledMino {
                x: 0,
                y: 0,
                mino: Mino::T,
                ori: Orientation::Downward,
                grounded: false,
            },
            field: vec![
                vec![false, true, true],
                vec![false, false, false],
                vec![true, false, true],
                vec![true, false, false],
                vec![true, false, false],
            ],
            want: (0, 2, Orientation::Rightward),
        },
        KickCase {
            name: "TMino is pointing up and pattern 4".to_string(),
            x: ControlledMino {
                x: 0,
                y: 0,
                mino: Mino::T,
                ori: Orientation::Upward,
                grounded: false,
            },
            field: vec![
                vec![false, false, true],
                vec![false, false, false],
                vec![true, true, false],
                vec![true, false, false],
                vec![true, true, false],
            ],
            want: (1, 2, Orientation::Leftward),
        },
        KickCase {
            name: "IMino is pointing right and pattern 1".to_string(),
            x: ControlledMino {
                x: 0,
                y: 0,
                mino: Mino::I,
                ori: Orientation::Leftward,
                grounded: false,
            },
            field: vec![
                vec![true, false, true, true, true],
                vec![true, false, true, true, true],
                vec![true, false, false, false, false],
                vec![true, false, true, true, true],
            ],
            want: (1, 0, Orientation::Downward),
        },
        KickCase {
            name: "IMino is pointing right and pattern 2".to_string(),
            x: ControlledMino {
                x: 2,
                y: 0,
                mino: Mino::I,
                ori: Orientation::Leftward,
                grounded: false,
            },
            field: vec![
                vec![true, true, true, false],
                vec![true, true, true, false],
                vec![false, false, false, false],
                vec![true, true, true, false],
            ],
            want: (0, 0, Orientation::Downward),
        },
        KickCase {
            name: "IMino is pointing up and pattern 3".to_string(),
            x: ControlledMino {
                x: 0,
                y: -1,
                mino: Mino::I,
                ori: Orientation::Downward,
                grounded: false,
            },
            field: vec![
                vec![false, false, false, true],
                vec![false, false, false, false],
                vec![true, true, true, false],
                vec![true, true, true, false],
                vec![true, true, true, false],
            ],
            want: (1, 1, Orientation::Rightward),
        },
        KickCase {
            name: "IMino is pointing right and pattern 4".to_string(),
            x: ControlledMino {
                x: 2,
                y: 0,
                mino: Mino::I,
                ori: Orientation::Leftward,
                grounded: false,
            },
            field: vec![
                vec![true, true, true, false],
                vec![true, true, true, false],
                vec![true, true, true, false],
                vec![false, false, false, false],
            ],
            want: (0, 1, Orientation::Downward),
        },
    ];

    for case in &mut cases {
        let height = case.field.len();
        let width = case.field[0].len();
        let mut f = Field::new(height, width);
        for i in 0..height {
            for j in 0..width {
                f.set_block_filled(i, j, case.field[i][j]);
            }
        }

        case.x.left_rotate_with_srs(&f);

        assert_eq!(
            (case.x.x, case.x.y, case.x.ori),
            case.want,
            "case {}: failed",
            case.name
        );
    }
}

#[test]
fn test_move() {
    let field_height = 5;
    let field_width = 4;
    let field_filled = vec![
        vec![false, false, false, false],
        vec![false, false, false, false],
        vec![false, false, false, false],
        vec![false, false, false, true],
        vec![false, false, false, true],
    ];

    let cases = vec![
        MoveCase {
            name: "落下可能".to_string(),
            x: ControlledMino {
                x: 0,
                y: 0,
                mino: Mino::T,
                ori: Orientation::Upward,
                grounded: false,
            },
            move_ori: Orientation::Downward,
            want: (0, 1, false),
        },
        MoveCase {
            name: "右移動可能".to_string(),
            x: ControlledMino {
                x: 0,
                y: 0,
                mino: Mino::T,
                ori: Orientation::Upward,
                grounded: false,
            },
            move_ori: Orientation::Rightward,
            want: (1, 0, false),
        },
        MoveCase {
            name: "左移動可能".to_string(),
            x: ControlledMino {
                x: 1,
                y: 0,
                mino: Mino::T,
                ori: Orientation::Upward,
                grounded: false,
            },
            move_ori: Orientation::Leftward,
            want: (0, 0, false),
        },
        MoveCase {
            name: "下のブロックが埋まっているため落下不可能".to_string(),
            x: ControlledMino {
                x: 1,
                y: 1,
                mino: Mino::T,
                ori: Orientation::Upward,
                grounded: false,
            },
            move_ori: Orientation::Downward,
            want: (1, 1, true),
        },
        MoveCase {
            name: "ブロックが埋まっているため右移動不可能".to_string(),
            x: ControlledMino {
                x: 0,
                y: 3,
                mino: Mino::T,
                ori: Orientation::Upward,
                grounded: false,
            },
            move_ori: Orientation::Rightward,
            want: (0, 3, false),
        },
        MoveCase {
            name: "フィールド境界のため左移動不可能".to_string(),
            x: ControlledMino {
                x: 0,
                y: 3,
                mino: Mino::T,
                ori: Orientation::Upward,
                grounded: false,
            },
            move_ori: Orientation::Leftward,
            want: (0, 3, false),
        },
        MoveCase {
            name: "フィールド境界のため落下不可能".to_string(),
            x: ControlledMino {
                x: 0,
                y: 3,
                mino: Mino::T,
                ori: Orientation::Upward,
                grounded: false,
            },
            move_ori: Orientation::Downward,
            want: (0, 3, true),
        },
        MoveCase {
            name: "フィールド境界のため落下不可能".to_string(),
            x: ControlledMino {
                x: 0,
                y: 3,
                mino: Mino::T,
                ori: Orientation::Upward,
                grounded: false,
            },
            move_ori: Orientation::Downward,
            want: (0, 3, true),
        },
        MoveCase {
            name: "filled=falseの部分がフィールド外にはみ出す".to_string(),
            x: ControlledMino {
                x: 0,
                y: 0,
                mino: Mino::T,
                ori: Orientation::Rightward,
                grounded: false,
            },
            move_ori: Orientation::Leftward,
            want: (-1, 0, false),
        },
        MoveCase {
            name: "おじゃまブロックの生成で重なったときに上に移動".to_string(),
            x: ControlledMino {
                x: 1,
                y: 2,
                mino: Mino::T,
                ori: Orientation::Upward,
                grounded: false,
            },
            move_ori: Orientation::Upward,
            want: (1, 1, false),
        },
    ];

    let mut f = Field::new(field_height, field_width);
    for h in 0..f.get_height() {
        for w in 0..f.get_width() {
            f.set_block_filled(h, w, field_filled[h][w]);
        }
    }

    for case in cases {
        let mut input = case.x;
        input.move_mino(&f, case.move_ori);
        assert_eq!(
            (input.get_x(), input.get_y(), input.get_grounded()),
            case.want,
            "case {}: failed",
            case.name
        )
    }
}

fn piece(x: i64, y: i64, ori: Orientation, mino: Mino) -> ControlledMino {
    ControlledMino { x, y, ori, grounded: false, mino }
}

fn quarter_turn(g: &Vec<Vec<bool>>) -> Vec<Vec<bool>> {
    let n = g.len();
    let mut out = vec![vec![false; n]; n];
    for i in 0..n {
        for j in 0..n {
            out[i][j] = g[n - 1 - j][i];
        }
    }
    out
}

#[test]
fn four_quarter_turns_restore_every_piece() {
    let kinds = [Mino::T, Mino::S, Mino::Z, Mino::L, Mino::J, Mino::I, Mino::O];
    let oris = [Orientation::Upward, Orientation::Rightward, Orientation::Downward, Orientation::Leftward];
    for m in kinds.iter() {
        for k in 0..4 {
            let start = piece(0, 0, oris[k], *m).render();
            let next = piece(0, 0, oris[(k + 1) % 4], *m).render();
            assert_eq!(next, quarter_turn(&start));
            let back = quarter_turn(&quarter_turn(&quarter_turn(&quarter_turn(&start))));
            assert_eq!(back, start);
        }
    }
}

#[test]
fn render_i_piece_turned_right() {
    let r = piece(0, 0, Orientation::Rightward, Mino::I).render();
    assert_eq!(
        r,
        vec![
            vec![false, false, true, false],
            vec![false, false, true, false],
            vec![false, false, true, false],
            vec![false, false, true, false],
        ]
    );
}

#[test]
fn kick_turn_matches_plain_turn_when_room() {
    let f = Field::new(6, 6);
    let kinds = [Mino::T, Mino::S, Mino::Z, Mino::L, Mino::J, Mino::I, Mino::O];
    for m in kinds.iter() {
        let mut plain = piece(1, 1, Orientation::Upward, *m);
        let mut kicked = plain;
        plain.right_rotate(&f);
        kicked.right_rotate_with_srs(&f);
        assert_eq!(plain, kicked);
        assert_eq!(kicked.ori, Orientation::Rightward);
        plain.left_rotate(&f);
        kicked.left_rotate_with_srs(&f);
        assert_eq!(plain, kicked);
        assert_eq!(kicked.ori, Orientation::Upward);
    }
}

#[test]
fn kick_turn_reverts_when_no_candidate_fits() {
    let mut f = Field::new(3, 3);
    for r in 0..3 {
        for c in 0..3 {
            if !(r == 1 || (r == 0 && c == 1)) {
                f.set_block_filled(r, c, true);
            }
        }
    }
    let mut p = piece(0, 0, Orientation::Upward, Mino::T);
    p.right_rotate_with_srs(&f);
    assert_eq!(p, piece(0, 0, Orientation::Upward, Mino::T));
}

#[test]
fn blocked_downward_move_grounds_piece() {
    let mut f = Field::new(5, 4);
    f.set_block_filled(3, 3, true);
    f.set_block_filled(4, 3, true);
    let mut p = piece(1, 1, Orientation::Upward, Mino::T);
    p.move_mino(&f, Orientation::Downward);
    assert_eq!((p.get_x(), p.get_y(), p.get_grounded()), (1, 1, true));
}

#[test]
fn successful_downward_move_clears_grounded() {
    let f = Field::new(5, 4);
    let mut p = piece(0, 0, Orientation::Upward, Mino::T);
    p.set_grounded(true);
    p.move_mino(&f, Orientation::Downward);
    assert_eq!((p.get_x(), p.get_y(), p.get_grounded()), (0, 1, false));
    p.move_mino(&f, Orientation::Downward);
    p.move_mino(&f, Orientation::Downward);
    assert_eq!((p.get_y(), p.get_grounded()), (3, false));
    p.move_mino(&f, Orientation::Downward);
    assert_eq!((p.get_y(), p.get_grounded()), (3, true));
}

#[test]
fn sideways_block_leaves_grounded_alone() {
    let f = Field::new(4, 3);
    let mut p = piece(0, 0, Orientation::Upward, Mino::T);
    p.set_grounded(true);
    p.move_mino(&f, Orientation::Leftward);
    assert_eq!((p.get_x(), p.get_grounded()), (0, true));
}

#[test]
fn new_piece_and_kind_replacement() {
    let mut p = ControlledMino::new(4, Mino::S);
    assert_eq!(p, piece(4, 0, Orientation::Upward, Mino::S));
    *p.get_mino() = Mino::O;
    p.set_y(2);
    assert_eq!(p, piece(4, 2, Orientation::Upward, Mino::O));
}
