use minesweeper::board::Board;
use minesweeper::game::play_turn;
use minesweeper::game::GameStatus;
use minesweeper::parse::parse_input;

fn empty_mines(w: usize, h: usize) -> Vec<bool> {
    vec![false; w * h]
}

fn board_with_mines(w: usize, h: usize, mines: &[(usize, usize)]) -> Board {
    let mut layout = empty_mines(w, h);
    for &(r, c) in mines {
        layout[r * w + c] = true;
    }
    Board::from_mines(w, h, &layout)
}

fn brute_force_count(board: &Board, r: isize, c: isize) -> usize {
    let mut n = 0;
    for dr in -1..=1isize {
        for dc in -1..=1isize {
            if (dr, dc) != (0, 0) {
                if let Some(cell) = board.getcell(r + dr, c + dc) {
                    if cell.is_mine {
                        n += 1;
                    }
                }
            }
        }
    }
    n
}

#[test]
fn generated_dimensions_in_range() {
    for _ in 0..20 {
        let board = Board::new();
        assert!(board.width >= 8 && board.width < 16);
        assert!(board.height >= 8 && board.height < 16);
        assert_eq!(board.cells.len(), board.width * board.height);
    }
}

#[test]
fn generated_board_starts_hidden() {
    let board = Board::new();
    for cell in &board.cells {
        assert!(!cell.is_visible);
        assert!(!cell.is_flag);
    }
}

#[test]
fn neighbor_counts_match_brute_force_on_random_boards() {
    for _ in 0..10 {
        let board = Board::new();
        for r in 0..board.height {
            for c in 0..board.width {
                let cell = board.getcell(r as isize, c as isize).unwrap();
                assert_eq!(cell.neighbors, brute_force_count(&board, r as isize, c as isize));
            }
        }
    }
}

#[test]
fn neighbor_counts_on_fixed_layout() {
    let board = board_with_mines(8, 8, &[(4, 4)]);
    for r in 0..8 {
        for c in 0..8 {
            let cell = board.getcell(r, c).unwrap();
            let near = (r - 4isize).abs() <= 1 && (c - 4isize).abs() <= 1 && (r, c) != (4, 4);
            assert_eq!(cell.neighbors, if near { 1 } else { 0 });
            assert_eq!(cell.is_mine, (r, c) == (4, 4));
        }
    }
}

#[test]
fn getcell_rejects_out_of_range() {
    let board = board_with_mines(8, 8, &[]);
    assert!(board.getcell(-1, 0).is_none());
    assert!(board.getcell(0, -1).is_none());
    assert!(board.getcell(8, 0).is_none());
    assert!(board.getcell(0, 8).is_none());
    assert!(board.getcell(7, 7).is_some());
}

#[test]
fn toggle_flag_flips_hidden_cells() {
    let mut board = board_with_mines(8, 8, &[(4, 4)]);
    board.toggle_flag(2, 3);
    assert!(board.getcell(2, 3).unwrap().is_flag);
    board.toggle_flag(2, 3);
    assert!(!board.getcell(2, 3).unwrap().is_flag);
}

#[test]
fn toggle_flag_out_of_range_is_noop() {
    let mut board = board_with_mines(8, 8, &[(4, 4)]);
    let before = board.cells.clone();
    board.toggle_flag(-3, 99);
    assert_eq!(board.cells, before);
}

#[test]
fn flagging_a_revealed_cell_stays_false() {
    let mut board = board_with_mines(8, 8, &[(4, 4)]);
    board.probe(3, 3).unwrap();
    assert!(board.getcell(3, 3).unwrap().is_visible);
    board.toggle_flag(3, 3);
    assert!(!board.getcell(3, 3).unwrap().is_flag);
    board.toggle_flag(3, 3);
    assert!(!board.getcell(3, 3).unwrap().is_flag);
}

#[test]
fn probe_reveals_and_clears_flag() {
    let mut board = board_with_mines(8, 8, &[(4, 4)]);
    board.toggle_flag(3, 3);
    assert!(board.getcell(3, 3).unwrap().is_flag);
    board.probe(3, 3).unwrap();
    let cell = board.getcell(3, 3).unwrap();
    assert!(cell.is_visible);
    assert!(!cell.is_flag);
}

#[test]
fn probe_of_visible_cell_changes_nothing() {
    let mut board = board_with_mines(8, 8, &[(4, 4)]);
    board.probe(3, 3).unwrap();
    let before = board.cells.clone();
    board.probe(3, 3).unwrap();
    assert_eq!(board.cells, before);
}

#[test]
fn probe_out_of_range_changes_nothing() {
    let mut board = board_with_mines(8, 8, &[(4, 4)]);
    let before = board.cells.clone();
    board.probe(-1, -1).unwrap();
    board.probe(100, 2).unwrap();
    assert_eq!(board.cells, before);
}

#[test]
fn probe_of_mine_detonates_and_leaves_board_unchanged() {
    let mut board = board_with_mines(8, 8, &[(4, 4)]);
    let before = board.cells.clone();
    assert!(board.probe(4, 4).is_err());
    assert_eq!(board.cells, before);
    let cell = board.getcell(4, 4).unwrap();
    assert!(cell.is_mine);
    assert!(!cell.is_visible);
}

#[test]
fn flood_fill_reveals_all_but_the_mine() {
    let mut board = board_with_mines(8, 8, &[(4, 4)]);
    board.probe(0, 0).unwrap();
    for r in 0..8 {
        for c in 0..8 {
            let cell = board.getcell(r, c).unwrap();
            assert_eq!(cell.is_visible, (r, c) != (4, 4), "cell ({}, {})", r, c);
        }
    }
}

#[test]
fn flood_fill_stops_at_a_wall_of_counted_cells() {
    let mines: Vec<(usize, usize)> = (0..8).map(|r| (r, 3)).collect();
    let mut board = board_with_mines(8, 8, &mines);
    board.probe(0, 0).unwrap();
    for r in 0..8 {
        for c in 0..8 {
            let cell = board.getcell(r, c).unwrap();
            assert_eq!(cell.is_visible, c <= 2, "cell ({}, {})", r, c);
        }
    }
}

#[test]
fn probe_of_counted_cell_reveals_only_it() {
    let mut board = board_with_mines(8, 8, &[(4, 4)]);
    board.probe(3, 4).unwrap();
    for r in 0..8 {
        for c in 0..8 {
            let cell = board.getcell(r, c).unwrap();
            assert_eq!(cell.is_visible, (r, c) == (3, 4));
        }
    }
}

#[test]
fn is_won_iff_flags_equal_mines() {
    let mut board = board_with_mines(8, 8, &[(0, 0), (2, 3)]);
    assert!(!board.is_won());
    board.toggle_flag(0, 0);
    assert!(!board.is_won());
    board.toggle_flag(2, 3);
    assert!(board.is_won());
    board.toggle_flag(5, 5);
    assert!(!board.is_won());
    board.toggle_flag(5, 5);
    assert!(board.is_won());
    board.toggle_flag(0, 0);
    assert!(!board.is_won());
}

#[test]
fn revealing_everything_without_flags_does_not_win() {
    let mut board = board_with_mines(8, 8, &[(4, 4)]);
    board.probe(0, 0).unwrap();
    assert!(!board.is_won());
}

#[test]
fn make_visible_uncovers_everything() {
    let mut board = board_with_mines(8, 8, &[(4, 4)]);
    board.toggle_flag(1, 1);
    board.make_visible();
    for cell in &board.cells {
        assert!(cell.is_visible);
    }
    assert!(board.getcell(1, 1).unwrap().is_flag);
}

#[test]
fn parse_two_tokens_is_probe() {
    assert_eq!(parse_input(b"3 4"), Ok((3, 4, false)));
}

#[test]
fn parse_three_tokens_is_flag_toggle() {
    assert_eq!(parse_input(b"3 4 x"), Ok((3, 4, true)));
    assert_eq!(parse_input(b"3 4 F"), Ok((3, 4, true)));
}

#[test]
fn parse_wrong_token_counts_fail() {
    assert_eq!(parse_input(b"3"), Err(()));
    assert_eq!(parse_input(b"3 4 5 6"), Err(()));
    assert_eq!(parse_input(b""), Err(()));
    assert_eq!(parse_input(b"   "), Err(()));
}

#[test]
fn parse_non_integers_fail() {
    assert_eq!(parse_input(b"a b"), Err(()));
    assert_eq!(parse_input(b"3 b"), Err(()));
    assert_eq!(parse_input(b"3.5 4"), Err(()));
    assert_eq!(parse_input(b"- 4"), Err(()));
}

#[test]
fn parse_accepts_signs_and_extra_whitespace() {
    assert_eq!(parse_input(b"  3\t 4 \n"), Ok((3, 4, false)));
    assert_eq!(parse_input(b"-2 +7"), Ok((-2, 7, false)));
    assert_eq!(parse_input(b"+0 -0"), Ok((0, 0, false)));
}

#[test]
fn parse_handles_isize_bounds() {
    assert_eq!(
        parse_input(b"9223372036854775807 1"),
        Ok((isize::MAX, 1, false))
    );
    assert_eq!(
        parse_input(b"-9223372036854775808 1"),
        Ok((isize::MIN, 1, false))
    );
    assert_eq!(parse_input(b"9223372036854775808 1"), Err(()));
    assert_eq!(parse_input(b"1 -9223372036854775809"), Err(()));
    assert_eq!(parse_input(b"99999999999999999999999999 1"), Err(()));
}

#[test]
fn render_hidden_empty_board() {
    let board = board_with_mines(8, 8, &[]);
    let mut expected = String::new();
    expected.push_str("           \n");
    expected.push_str("   12345678\n");
    expected.push_str("\n");
    for i in 1..=8 {
        expected.push_str(&format!(" {} ........\n", i));
    }
    assert_eq!(board.render(), expected);
}

#[test]
fn render_revealed_board_with_one_mine() {
    let mut board = board_with_mines(8, 8, &[(0, 0)]);
    board.make_visible();
    let mut expected = String::new();
    expected.push_str("           \n");
    expected.push_str("   12345678\n");
    expected.push_str("\n");
    expected.push_str(" 1 x1      \n");
    expected.push_str(" 2 11      \n");
    for i in 3..=8 {
        expected.push_str(&format!(" {}         \n", i));
    }
    assert_eq!(board.render(), expected);
}

#[test]
fn render_wide_board_headers_and_row_numbers() {
    let board = board_with_mines(12, 12, &[]);
    let rendered = board.render();
    let lines: Vec<&str> = rendered.split('\n').collect();
    assert_eq!(lines[0], "            111");
    assert_eq!(lines[1], "   123456789012");
    assert_eq!(lines[2], "");
    assert_eq!(lines[3], " 1 ............");
    assert_eq!(lines[11], " 9 ............");
    assert_eq!(lines[12], "10 ............");
    assert_eq!(lines[14], "12 ............");
}

#[test]
fn render_shows_flags_and_counts() {
    let mut board = board_with_mines(8, 8, &[(4, 4)]);
    board.toggle_flag(0, 7);
    board.probe(4, 3).unwrap();
    let rendered = board.render();
    let lines: Vec<&str> = rendered.split('\n').collect();
    assert_eq!(lines[3], " 1 .......F");
    assert_eq!(lines[7], " 5 ...1....");
}

#[test]
fn play_turn_probe_mine_loses() {
    let mut board = board_with_mines(8, 8, &[(4, 4)]);
    let st = play_turn(&mut board, 5, 5, false);
    assert_eq!(st, GameStatus::Lost);
    assert!(board.getcell(4, 4).unwrap().is_mine);
    assert!(!board.getcell(4, 4).unwrap().is_visible);
}

#[test]
fn play_turn_flag_all_mines_wins() {
    let mut board = board_with_mines(8, 8, &[(0, 0), (2, 3)]);
    assert_eq!(play_turn(&mut board, 1, 1, true), GameStatus::Playing);
    assert_eq!(play_turn(&mut board, 3, 4, true), GameStatus::Won);
}

#[test]
fn play_turn_safe_probe_keeps_playing() {
    let mut board = board_with_mines(8, 8, &[(4, 4)]);
    assert_eq!(play_turn(&mut board, 1, 1, false), GameStatus::Playing);
    assert!(board.getcell(0, 0).unwrap().is_visible);
}

#[test]
fn play_turn_out_of_range_is_noop() {
    let mut board = board_with_mines(8, 8, &[(4, 4)]);
    let before = board.cells.clone();
    assert_eq!(play_turn(&mut board, 0, 0, false), GameStatus::Playing);
    assert_eq!(play_turn(&mut board, 99, 1, true), GameStatus::Playing);
    assert_eq!(board.cells, before);
}
