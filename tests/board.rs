use game_of_life::{Board, BoardError, CellState, Coord};

#[test]
fn creating_board_with_0_width_fails() {
    assert_eq!(Board::new(0, 10), Err(BoardError::InvalidDimension));
}

#[test]
fn creating_board_with_0_height_fails() {
    assert_eq!(Board::new(10, 0), Err(BoardError::InvalidDimension));
}

#[test]
fn creating_board_with_0_cells_fails() {
    assert_eq!(Board::new(0, 0), Err(BoardError::InvalidDimension));
}

#[test]
fn all_cells_initially_dead() {
    let height = 10;
    let width = 5;
    let board = Board::new(width, height).unwrap();

    println!("{:?}", board.cell_coords());

    let all_dead = board
        .cell_coords()
        .iter()
        .map(|c| board.get_cell_state(c))
        .all(|s| s == &CellState::Dead);

    assert!(all_dead);
}

#[test]
fn new_board_has_requested_dimensions_and_one_coord_per_cell() {
    let board = Board::new(15, 10).unwrap();

    assert_eq!(board.width(), 15);
    assert_eq!(board.height(), 10);
    let coords = board.cell_coords();
    assert_eq!(coords.len(), 150);
    for y in 0..10 {
        for x in 0..15 {
            assert!(coords.contains(&Coord::new(x, y)));
        }
    }
}

#[test]
fn smallest_board_is_one_dead_cell() {
    let board = Board::new(1, 1).unwrap();

    assert_eq!(board.cell_coords(), &vec![Coord::new(0, 0)]);
    assert_eq!(board.get_cell_state(&Coord::new(0, 0)), &CellState::Dead);
}

#[test]
fn creating_board_from_grid_with_0_cells_fails() {
    assert_eq!(Board::from_grid(&Vec::new()), Err(BoardError::InvalidDimension));
}

#[test]
fn creating_board_from_grid_with_only_empty_rows_fails() {
    assert_eq!(
        Board::from_grid(&vec![vec![], vec![]]),
        Err(BoardError::InvalidDimension)
    );
}

#[test]
fn creating_board_from_grid_gets_correct_dimensions() {
    let grid = vec![vec![CellState::Alive, CellState::Dead]];

    let board = Board::from_grid(&grid).unwrap();

    assert_eq!(board.width(), 2);
    assert_eq!(board.height(), 1);
}

#[test]
fn cearing_board_from_grid_with_uneven_rows_works() {
    let grid = vec![
        vec![],
        vec![CellState::Dead, CellState::Alive],
        vec![CellState::Dead],
    ];

    let board = Board::from_grid(&grid).unwrap();

    assert_eq!(board.width(), 2);
    assert_eq!(board.height(), 3);
}

#[test]
fn creating_board_from_grid_copies_cells_and_pads_with_dead() {
    let grid = vec![
        vec![CellState::Dead, CellState::Alive],
        vec![CellState::Alive],
        vec![CellState::Alive, CellState::Alive],
    ];

    let board = Board::from_grid(&grid).unwrap();

    assert_eq!(board.get_cell_state(&Coord::new(0, 0)), &CellState::Dead);
    assert_eq!(board.get_cell_state(&Coord::new(1, 0)), &CellState::Alive);
    assert_eq!(board.get_cell_state(&Coord::new(0, 1)), &CellState::Alive);
    assert_eq!(board.get_cell_state(&Coord::new(1, 1)), &CellState::Dead);
    assert_eq!(board.get_cell_state(&Coord::new(0, 2)), &CellState::Alive);
    assert_eq!(board.get_cell_state(&Coord::new(1, 2)), &CellState::Alive);
}

#[test]
fn creating_board_from_empty_string_fails() {
    assert_eq!(Board::from_str("", '#'), Err(BoardError::InvalidDimension));
}

#[test]
fn creating_board_from_string_with_only_newlines_fails() {
    assert_eq!(
        Board::from_str("\n\n\n\n\n", '#'),
        Err(BoardError::InvalidDimension)
    );
}

#[test]
fn creating_board_from_string_with_only_carriage_returns_fails() {
    assert_eq!(
        Board::from_str("\r\r\r\r", '#'),
        Err(BoardError::InvalidDimension)
    );
}

#[test]
fn creating_board_from_string_ignores_carriage_returns() {
    let board = Board::from_str(&vec!["##", "##"].join("\n"), '#').unwrap();

    assert_eq!(board.width(), 2);
    assert_eq!(board.height(), 2);
}

#[test]
fn creating_board_from_string_with_crlf_line_endings() {
    let board = Board::from_str("#_\r\n_#", '#').unwrap();

    assert_eq!(board.width(), 2);
    assert_eq!(board.height(), 2);
    assert_eq!(board.to_str('#', '_'), "#_\n_#");
}

#[test]
fn creating_board_from_string_trailing_newline() {
    // Trailing newline causes a bottom row with dead cells
    let board = Board::from_str("##\n##\n", '#').unwrap();

    assert_eq!(board.width(), 2);
    assert_eq!(board.height(), 3);
}

#[test]
fn creating_board_from_string_counts_non_live_characters_as_dead() {
    let board = Board::from_str(&vec!["*T#5.", " #_#?"].join("\n"), '#').unwrap();

    assert_eq!(board.get_cell_state(&Coord::new(0, 0)), &CellState::Dead);
    assert_eq!(board.get_cell_state(&Coord::new(1, 0)), &CellState::Dead);
    assert_eq!(board.get_cell_state(&Coord::new(2, 0)), &CellState::Alive);
    assert_eq!(board.get_cell_state(&Coord::new(3, 0)), &CellState::Dead);
    assert_eq!(board.get_cell_state(&Coord::new(4, 0)), &CellState::Dead);
    assert_eq!(board.get_cell_state(&Coord::new(0, 1)), &CellState::Dead);
    assert_eq!(board.get_cell_state(&Coord::new(1, 1)), &CellState::Alive);
    assert_eq!(board.get_cell_state(&Coord::new(2, 1)), &CellState::Dead);
    assert_eq!(board.get_cell_state(&Coord::new(3, 1)), &CellState::Alive);
    assert_eq!(board.get_cell_state(&Coord::new(4, 1)), &CellState::Dead);
}

#[test]
fn creating_board_from_string_pads_short_lines() {
    let board = Board::from_str("#\n_##", '#').unwrap();

    assert_eq!(board.width(), 3);
    assert_eq!(board.height(), 2);
    assert_eq!(board.to_str('#', '_'), "#__\n_##");
}

#[test]
fn creating_board_from_string_with_leading_newline_has_empty_first_row() {
    let board = Board::from_str("\n##", '#').unwrap();

    assert_eq!(board.height(), 2);
    assert_eq!(board.to_str('#', '_'), "__\n##");
}

#[test]
fn to_str_uses_the_given_markers() {
    let board = Board::from_str("#__\n_#_", '#').unwrap();

    assert_eq!(board.to_str('A', '.'), "A..\n.A.");
    assert_eq!(board.to_str('#', '_'), "#__\n_#_");
}

#[test]
fn text_round_trip() {
    for s in ["A", ".", "A.A\n...\n.AA", "....\nAAAA", "A\n.\nA"] {
        let board = Board::from_str(s, 'A').unwrap();
        assert_eq!(board.to_str('A', '.'), s);
    }
}

#[test]
fn gets_and_sets_state_of_cell() {
    let height = 10;
    let width = 5;
    let mut board = Board::new(width, height).unwrap();
    let coord = Coord::new(0, 0);

    assert_eq!(board.get_cell_state(&coord), &CellState::Dead);

    board.revive_cell(&coord);

    assert_eq!(board.get_cell_state(&coord), &CellState::Alive);

    board.kill_cell(&coord);

    assert_eq!(board.get_cell_state(&coord), &CellState::Dead);

    board.toggle_cell(&coord);

    assert_eq!(board.get_cell_state(&coord), &CellState::Alive);

    board.toggle_cell(&coord);

    assert_eq!(board.get_cell_state(&coord), &CellState::Dead);
}

#[test]
fn changing_one_cell_leaves_the_others() {
    let mut board = Board::new(3, 3).unwrap();
    board.revive_cell(&Coord::new(1, 2));

    assert_eq!(board.to_str('#', '_'), "___\n___\n_#_");
    board.toggle_cell(&Coord::new(2, 0));
    assert_eq!(board.to_str('#', '_'), "__#\n___\n_#_");
    board.kill_cell(&Coord::new(1, 2));
    assert_eq!(board.to_str('#', '_'), "__#\n___\n___");
}

#[test]
fn neighbours_should_be_correct_in_middle_of_board() {
    let height = 10;
    let width = 5;
    let board = Board::new(width, height).unwrap();
    let coord = Coord::new(1, 1);

    let expected_neighbours = vec![
        Coord::new(0, 1),
        Coord::new(2, 1),
        Coord::new(1, 0),
        Coord::new(1, 2),
        Coord::new(0, 0),
        Coord::new(0, 2),
        Coord::new(2, 0),
        Coord::new(2, 2),
    ];

    let neighbours = board.get_neighbour_coords(&coord);

    for expected in expected_neighbours {
        assert!(neighbours.contains(&expected));
    }
}

#[test]
fn neighbours_should_be_correct_upper_left() {
    let height = 10;
    let width = 5;
    let board = Board::new(width, height).unwrap();
    let coord = Coord::new(0, 0);

    let expected_neighbours = vec![
        Coord::new(width - 1, 0),
        Coord::new(1, 0),
        Coord::new(0, height - 1),
        Coord::new(0, 1),
        Coord::new(width - 1, height - 1),
        Coord::new(width - 1, 1),
        Coord::new(1, height - 1),
        Coord::new(1, 1),
    ];

    let neighbours = board.get_neighbour_coords(&coord);

    for expected in expected_neighbours {
        assert!(neighbours.contains(&expected));
    }
}

#[test]
fn neighbours_should_be_correct_lower_right() {
    let height = 10;
    let width = 5;
    let board = Board::new(width, height).unwrap();
    let coord = Coord::new(width - 1, height - 1);

    let expected_neighbours = vec![
        Coord::new(0, 0),
        Coord::new(0, height - 1),
        Coord::new(0, height - 2),
        Coord::new(width - 1, 0),
        Coord::new(width - 2, 0),
        Coord::new(width - 2, height - 2),
        Coord::new(width - 1, height - 2),
        Coord::new(width - 2, height - 1),
    ];

    let neighbours = board.get_neighbour_coords(&coord);

    println!("{:?}", neighbours);
    println!("{:?}", expected_neighbours);

    for expected in expected_neighbours {
        assert!(neighbours.contains(&expected));
    }
}

#[test]
fn neighbours_wrap_on_every_edge_of_a_5_by_5_board() {
    let board = Board::new(5, 5).unwrap();

    for y in 0..5 {
        let n = board.get_neighbour_coords(&Coord::new(0, y));
        // west comes first
        assert_eq!(n[0], Coord::new(4, y));
    }
    for x in 0..5 {
        let n = board.get_neighbour_coords(&Coord::new(x, 0));
        // north comes third
        assert_eq!(n[2], Coord::new(x, 4));
    }
    for c in board.cell_coords() {
        let n = board.get_neighbour_coords(c);
        assert_eq!(n.len(), 8);
        for m in &n {
            assert!(m.x < 5 && m.y < 5);
        }
    }
}

#[test]
fn neighbours_in_order_west_east_north_south_then_diagonals() {
    let board = Board::new(5, 5).unwrap();

    assert_eq!(
        board.get_neighbour_coords(&Coord::new(2, 2)),
        vec![
            Coord::new(1, 2),
            Coord::new(3, 2),
            Coord::new(2, 1),
            Coord::new(2, 3),
            Coord::new(1, 1),
            Coord::new(3, 1),
            Coord::new(1, 3),
            Coord::new(3, 3),
        ]
    );
}

#[test]
fn three_live_neighbours() {
    let board = Board::from_str(
        &vec!["_____", "_##__", "_____", "__#__", "_____"].join("\n"),
        '#',
    )
    .unwrap();

    let coord = Coord::new(2, 2);

    assert_eq!(board.get_live_neighbours_of(&coord), 3);
}

#[test]
fn live_neighbours_wrap_around_corners() {
    let board = Board::from_str(&vec!["#__#", "____", "____", "#__#"].join("\n"), '#').unwrap();

    assert_eq!(board.get_live_neighbours_of(&Coord::new(0, 0)), 3);
    assert_eq!(board.get_live_neighbours_of(&Coord::new(1, 1)), 1);
}

#[test]
fn live_neighbours_at_most_eight() {
    let board = Board::from_str("###\n###\n###", '#').unwrap();

    for c in board.cell_coords() {
        assert_eq!(board.get_live_neighbours_of(c), 8);
    }
}

#[test]
fn live_neighbours_on_one_cell_board_counts_itself() {
    // every neighbour of the only cell is the cell itself
    let board = Board::from_str("#", '#').unwrap();

    assert_eq!(board.get_live_neighbours_of(&Coord::new(0, 0)), 8);
}
