use minesweeper::generate::{count_around, generate_grid, generate_grid_safe, mine_too_close};
use minesweeper::{Board, Tile, TileState};

fn revealed_everywhere(b: &Board) -> bool {
    for y in 0..b.height() {
        for x in 0..b.width() {
            match b.check(x, y) {
                TileState::Hidden | TileState::Flagged => return false,
                _ => {}
            }
        }
    }
    true
}

fn true_count(g: &[Tile], w: usize, h: usize, x: usize, y: usize) -> u8 {
    let mut n = 0;
    for dy in -1i64..=1 {
        for dx in -1i64..=1 {
            if dx == 0 && dy == 0 {
                continue;
            }
            let nx = x as i64 + dx;
            let ny = y as i64 + dy;
            if nx >= 0 && ny >= 0 && (nx as usize) < w && (ny as usize) < h {
                if g[ny as usize * w + nx as usize].mine {
                    n += 1;
                }
            }
        }
    }
    n
}

#[test]
fn new_board_is_hidden() {
    let b = Board::new(4, 3, 2);
    assert_eq!(b.width(), 4);
    assert_eq!(b.height(), 3);
    assert_eq!(b.mine_count(), 2);
    assert_eq!(b.mines_left(), 2);
    for y in 0..3 {
        for x in 0..4 {
            assert_eq!(b.check(x, y), TileState::Hidden);
        }
    }
}

#[test]
fn new_board_holds_mine_count_mines() {
    for _ in 0..20 {
        let mut b = Board::new(6, 5, 7);
        for y in 0..5 {
            for x in 0..6 {
                let _ = b.dig(x, y);
            }
        }
        let mut mines = 0;
        for y in 0..5 {
            for x in 0..6 {
                match b.check(x, y) {
                    TileState::Mine => mines += 1,
                    TileState::Hidden | TileState::Flagged => panic!("({}, {}) still hidden", x, y),
                    _ => {}
                }
            }
        }
        assert_eq!(mines, 7);
    }
}

#[test]
fn default_board_dimensions() {
    let b = Board::default();
    assert_eq!((b.width(), b.height(), b.mine_count()), (20, 20, 50));
}

#[test]
fn generated_grid_has_exact_mines_and_counts() {
    let (w, h) = (12, 9);
    for _ in 0..20 {
        let g = generate_grid_safe(w, h, 30, 5, 4).expect("room for 30 mines");
        assert_eq!(g.len(), w * h);
        assert_eq!(g.iter().filter(|t| t.mine).count(), 30);
        for y in 0..h {
            for x in 0..w {
                let t = g[y * w + x];
                assert!(t.hidden && !t.flag);
                if !t.mine {
                    assert_eq!(t.count, true_count(&g, w, h, x, y));
                }
            }
        }
    }
}

#[test]
fn generated_grid_keeps_safety_zone_clear() {
    let (w, h) = (10, 10);
    for _ in 0..20 {
        let g = generate_grid_safe(w, h, 70, 3, 6).expect("room for 70 mines");
        for y in 0..h {
            for x in 0..w {
                let dx = x as i64 - 3;
                let dy = y as i64 - 6;
                if dx * dx + dy * dy <= 4 {
                    assert!(!g[y * w + x].mine, "mine at ({}, {})", x, y);
                }
            }
        }
    }
}

#[test]
fn generation_refused_without_room() {
    // 13 of the 25 cells lie within the safety radius of the centre.
    assert!(generate_grid_safe(5, 5, 12, 2, 2).is_some());
    assert!(generate_grid_safe(5, 5, 13, 2, 2).is_none());
    let g = generate_grid_safe(5, 5, 12, 2, 2).unwrap();
    assert_eq!(g.iter().filter(|t| t.mine).count(), 12);
}

#[test]
fn safety_radius_values() {
    assert!(mine_too_close(2, 2, 2, 2));
    assert!(mine_too_close(4, 2, 2, 2));
    assert!(mine_too_close(3, 3, 2, 2));
    assert!(!mine_too_close(4, 3, 2, 2));
    assert!(!mine_too_close(0, 0, 2, 2));
    assert!(!mine_too_close(5, 2, 2, 2));
}

#[test]
fn count_around_counts_neighbours() {
    let mut g = vec![
        Tile {
            hidden: true,
            flag: false,
            mine: false,
            count: 0
        };
        9
    ];
    g[0].mine = true;
    g[2].mine = true;
    g[8].mine = true;
    assert_eq!(count_around(&g, 3, 3, 1, 1), 3);
    assert_eq!(count_around(&g, 3, 3, 1, 0), 2);
    assert_eq!(count_around(&g, 3, 3, 0, 2), 0);
}

#[test]
fn first_dig_reveals_a_safe_cell() {
    for _ in 0..20 {
        let mut b = Board::new(16, 12, 40);
        assert!(b.first_dig(7, 5));
        assert_ne!(b.check(7, 5), TileState::Hidden);
        assert_ne!(b.check(7, 5), TileState::Mine);
        assert_eq!(b.mines_left(), 40);
        // The whole safety zone is free of mines, so the dug cell shows no number.
        assert_eq!(b.check(7, 5), TileState::Empty);
    }
}

#[test]
fn first_dig_refused_when_board_too_crowded() {
    let mut b = Board::new(5, 5, 20);
    assert!(!b.first_dig(2, 2));
    assert_eq!(b.check(2, 2), TileState::Hidden);
}

#[test]
fn flag_twice_restores_state() {
    let mut b = Board::new(5, 5, 3);
    let before = b.mines_left();
    b.flag(1, 2);
    assert_eq!(b.check(1, 2), TileState::Flagged);
    assert_eq!(b.mines_left(), before - 1);
    b.flag(1, 2);
    assert_eq!(b.check(1, 2), TileState::Hidden);
    assert_eq!(b.mines_left(), before);
}

#[test]
fn flag_ignores_revealed_tile_and_may_go_negative() {
    let mut b = Board::with_mines(3, 3, &vec![(0, 0)]);
    assert_eq!(b.dig(2, 2), Ok(()));
    assert_eq!(b.check(2, 2), TileState::Empty);
    b.flag(2, 2);
    assert_eq!(b.mines_left(), 1);
    let mut c = Board::new(3, 3, 1);
    c.flag(0, 0);
    c.flag(1, 1);
    assert_eq!(c.mines_left(), -1);
}

#[test]
fn dig_known_mine_reports_hit() {
    let mut b = Board::with_mines(5, 5, &vec![(3, 1)]);
    assert_eq!(b.mine_count(), 1);
    assert_eq!(b.dig(3, 1), Err(()));
    assert_eq!(b.check(3, 1), TileState::Mine);
}

#[test]
fn dig_on_flag_does_nothing() {
    let mut b = Board::with_mines(5, 5, &vec![(3, 1)]);
    b.flag(3, 1);
    assert_eq!(b.dig(3, 1), Ok(()));
    assert_eq!(b.check(3, 1), TileState::Flagged);
}

#[test]
fn dig_numbered_tile_reveals_only_it() {
    let mut b = Board::with_mines(5, 5, &vec![(0, 0)]);
    assert_eq!(b.dig(1, 1), Ok(()));
    assert_eq!(b.check(1, 1), TileState::Count(1));
    assert_eq!(b.check(2, 2), TileState::Hidden);
}

#[test]
fn empty_board_flood_fills_and_wins() {
    let mut b = Board::new(10, 10, 0);
    assert_eq!(b.dig(6, 3), Ok(()));
    assert!(revealed_everywhere(&b));
    for y in 0..10 {
        for x in 0..10 {
            assert_eq!(b.check(x, y), TileState::Empty);
        }
    }
    assert!(b.game_won());
}

#[test]
fn empty_board_first_dig_wins() {
    let mut b = Board::new(10, 10, 0);
    assert!(b.first_dig(0, 9));
    assert!(revealed_everywhere(&b));
    assert!(b.game_won());
}

#[test]
fn flood_reveals_region_and_border_only() {
    // A wall of mines in column 2 splits the board; digging on the left reveals the
    // left region and its numbered border, nothing right of the wall.
    let mines = vec![(2, 0), (2, 1), (2, 2), (2, 3)];
    let mut b = Board::with_mines(5, 4, &mines);
    assert_eq!(b.dig(0, 0), Ok(()));
    for y in 0..4 {
        assert_eq!(b.check(0, y), TileState::Empty);
        assert!(matches!(b.check(1, y), TileState::Count(_)));
        assert_eq!(b.check(2, y), TileState::Hidden);
        assert_eq!(b.check(3, y), TileState::Hidden);
        assert_eq!(b.check(4, y), TileState::Hidden);
    }
    assert_eq!(b.check(1, 0), TileState::Count(2));
    assert_eq!(b.check(1, 1), TileState::Count(3));
}

#[test]
fn flood_reveals_flagged_tiles_in_region() {
    let mut b = Board::with_mines(4, 4, &vec![(3, 3)]);
    b.flag(0, 3);
    assert_eq!(b.dig(0, 0), Ok(()));
    assert_eq!(b.check(0, 3), TileState::Empty);
    assert_eq!(b.check(3, 3), TileState::Hidden);
    assert_eq!(b.mines_left(), 0);
}

#[test]
fn check_is_stable() {
    let mut b = Board::with_mines(4, 4, &vec![(1, 1)]);
    b.dig(0, 0).unwrap();
    let first = b.check(0, 0);
    let second = b.check(0, 0);
    assert_eq!(first, second);
    assert_eq!(first, TileState::Count(1));
}

#[test]
fn chord_invalid_on_hidden_or_zero_tiles() {
    let mut b = Board::with_mines(4, 4, &vec![(3, 3)]);
    assert!(!b.is_valid_chord(2, 2));
    b.dig(0, 0).unwrap();
    assert_eq!(b.check(0, 0), TileState::Empty);
    assert!(!b.is_valid_chord(0, 0));
    assert_eq!(b.check(2, 2), TileState::Count(1));
    assert!(!b.is_valid_chord(2, 2));
    b.flag(3, 3);
    assert!(b.is_valid_chord(2, 2));
}

#[test]
fn chord_reveals_unflagged_neighbours() {
    let mut b = Board::with_mines(3, 3, &vec![(0, 0)]);
    b.dig(1, 1).unwrap();
    assert_eq!(b.check(1, 1), TileState::Count(1));
    b.flag(0, 0);
    assert_eq!(b.dig(1, 1), Ok(()));
    assert_eq!(b.check(0, 0), TileState::Flagged);
    assert_eq!(b.check(0, 1), TileState::Count(1));
    assert_eq!(b.check(1, 0), TileState::Count(1));
    assert_eq!(b.check(2, 2), TileState::Empty);
    assert_eq!(b.check(2, 0), TileState::Empty);
    assert!(b.game_won());
}

#[test]
fn chord_with_wrong_flag_hits_mine() {
    let mut b = Board::with_mines(3, 3, &vec![(0, 0)]);
    b.dig(1, 1).unwrap();
    b.flag(2, 2);
    assert_eq!(b.dig(1, 1), Err(()));
    assert_eq!(b.check(0, 0), TileState::Mine);
}

#[test]
fn chord_count_mismatch_does_nothing() {
    let mut b = Board::with_mines(3, 3, &vec![(0, 0)]);
    b.dig(1, 1).unwrap();
    assert_eq!(b.dig(1, 1), Ok(()));
    assert_eq!(b.check(0, 0), TileState::Hidden);
    assert_eq!(b.check(2, 2), TileState::Hidden);
}

#[test]
fn undo_rehides_exploded_mine_only() {
    let mut b = Board::with_mines(5, 5, &vec![(2, 2), (4, 4)]);
    b.dig(0, 0).unwrap();
    assert_eq!(b.dig(2, 2), Err(()));
    b.undo(2, 2);
    assert_eq!(b.check(2, 2), TileState::Hidden);
    assert_eq!(b.check(0, 0), TileState::Empty);
    assert_eq!(b.dig(4, 4), Err(()));
    b.undo(0, 0);
    assert_eq!(b.check(4, 4), TileState::Mine);
}

#[test]
fn win_needs_flags_and_reveals() {
    // Every tile but the centre mine shows a 1, so no dig floods.
    let mut b = Board::with_mines(3, 3, &vec![(1, 1)]);
    assert!(!b.game_won());
    b.flag(1, 1);
    assert_eq!(b.mines_left(), 0);
    assert!(!b.game_won());
    b.flag(0, 0);
    assert_eq!(b.mines_left(), -1);
    for y in 0..3 {
        for x in 0..3 {
            assert_eq!(b.dig(x, y), Ok(()));
        }
    }
    assert_eq!(b.check(0, 0), TileState::Flagged);
    assert!(!b.game_won());
    b.flag(0, 0);
    assert_eq!(b.mines_left(), 0);
    assert!(!b.game_won());
    assert_eq!(b.dig(0, 0), Ok(()));
    assert_eq!(b.check(0, 0), TileState::Count(1));
    assert!(b.game_won());
}

#[test]
fn won_board_stays_won_after_flag_on_revealed_tile() {
    let mut b = Board::with_mines(3, 3, &vec![(2, 2)]);
    b.flag(2, 2);
    b.dig(0, 0).unwrap();
    assert!(b.game_won());
    b.flag(1, 1);
    assert_eq!(b.mines_left(), 0);
    assert!(b.game_won());
}

#[test]
fn duplicate_listed_mines_count_once() {
    let b = Board::with_mines(3, 3, &vec![(1, 1), (1, 1)]);
    assert_eq!(b.mine_count(), 1);
    assert_eq!(b.mines_left(), 1);
}

#[test]
fn board_text_shows_each_tile() {
    let mut b = Board::with_mines(3, 2, &vec![(0, 0)]);
    assert_eq!(b.to_text(), "◼ ◼ ◼\n◼ ◼ ◼\n");
    assert_eq!(b.dig(2, 1), Ok(()));
    b.flag(0, 1);
    assert_eq!(b.to_text(), "◼ 1  \n◄ 1  \n");
    assert_eq!(b.dig(0, 0), Err(()));
    assert_eq!(b.to_text(), "◉ 1  \n◄ 1  \n");
}

#[test]
fn single_tile_board() {
    let mut b = Board::new(1, 1, 0);
    assert!(!b.game_won());
    assert!(b.first_dig(0, 0));
    assert_eq!(b.check(0, 0), TileState::Empty);
    assert!(b.game_won());
}

#[test]
fn large_empty_board_floods_without_recursion() {
    let mut b = Board::new(400, 300, 0);
    assert_eq!(b.dig(399, 0), Ok(()));
    assert!(revealed_everywhere(&b));
    assert!(b.game_won());
}

#[test]
fn flood_on_narrow_board_stops_at_numbers() {
    // One row: the mine at x = 4 stops the fill from the left at x = 3.
    let mut b = Board::with_mines(8, 1, &vec![(4, 0)]);
    assert_eq!(b.dig(0, 0), Ok(()));
    assert_eq!(b.check(0, 0), TileState::Empty);
    assert_eq!(b.check(2, 0), TileState::Empty);
    assert_eq!(b.check(3, 0), TileState::Count(1));
    assert_eq!(b.check(4, 0), TileState::Hidden);
    assert_eq!(b.check(5, 0), TileState::Hidden);
    assert_eq!(b.check(7, 0), TileState::Hidden);
    assert_eq!(b.dig(7, 0), Ok(()));
    assert_eq!(b.check(5, 0), TileState::Count(1));
    assert_eq!(b.check(4, 0), TileState::Hidden);
    assert!(!b.game_won());
    b.flag(4, 0);
    assert!(b.game_won());
}

#[test]
fn counts_reach_eight() {
    let mines = vec![(0, 0), (1, 0), (2, 0), (0, 1), (2, 1), (0, 2), (1, 2), (2, 2)];
    let mut b = Board::with_mines(3, 3, &mines);
    assert_eq!(b.mine_count(), 8);
    assert_eq!(b.dig(1, 1), Ok(()));
    assert_eq!(b.check(1, 1), TileState::Count(8));
}

#[test]
fn blind_grid_has_exact_mines_and_counts() {
    let (w, h) = (9, 7);
    for m in [0u32, 1, 30, 62] {
        let g = generate_grid(w, h, m);
        assert_eq!(g.len(), w * h);
        assert_eq!(g.iter().filter(|t| t.mine).count(), m as usize);
        for y in 0..h {
            for x in 0..w {
                let t = g[y * w + x];
                assert!(t.hidden && !t.flag);
                if !t.mine {
                    assert_eq!(t.count, true_count(&g, w, h, x, y));
                }
            }
        }
    }
}
