use minesweeper::minefield::MineField;
use minesweeper::minefield::State;

fn count_mines(mf: &MineField) -> usize {
    let mut n: usize = 0;
    for y in 0..mf.height() {
        for x in 0..mf.width() {
            if mf.cell_at(x, y).has_mine {
                n += 1;
            }
        }
    }
    n
}

fn brute_force_neighbors(mf: &MineField, x: usize, y: usize) -> u8 {
    let w = mf.width() as i32;
    let h = mf.height() as i32;
    let mut n: u8 = 0;
    for dy in -1..=1 {
        for dx in -1..=1 {
            if dx == 0 && dy == 0 {
                continue;
            }
            let nx = x as i32 + dx;
            let ny = y as i32 + dy;
            if nx >= 0 && ny >= 0 && nx < w && ny < h && mf.cell_at(nx as usize, ny as usize).has_mine
            {
                n += 1;
            }
        }
    }
    n
}

fn snapshot(mf: &MineField) -> (Vec<(bool, bool, u8)>, usize) {
    let mut cells = Vec::new();
    for y in 0..mf.height() {
        for x in 0..mf.width() {
            let c = mf.cell_at(x, y);
            cells.push((c.has_mine, c.is_revealed, c.neighbor_mine_count));
        }
    }
    (cells, mf.revealed_count())
}

#[test]
fn random_board_places_exact_mine_count() {
    let mf = MineField::new(5, 5, 7);
    assert_eq!(mf.width(), 5);
    assert_eq!(mf.height(), 5);
    assert_eq!(mf.mine_count(), 7);
    assert_eq!(count_mines(&mf), 7);
    assert_eq!(mf.revealed_count(), 0);
}

#[test]
fn random_board_with_zero_and_full_mines() {
    let empty = MineField::new(4, 4, 0);
    assert_eq!(count_mines(&empty), 0);
    let full = MineField::new(4, 4, 16);
    assert_eq!(count_mines(&full), 16);
}

#[test]
fn unshuffled_board_mines_sit_first_in_row_major_order() {
    let mf = MineField::new_unshuffled(4, 3, 5);
    for y in 0..3 {
        for x in 0..4 {
            let expected = y * 4 + x < 5;
            assert_eq!(mf.cell_at(x, y).has_mine, expected);
        }
    }
}

#[test]
fn neighbor_counts_match_brute_force_on_fixed_board() {
    let mf = MineField::new_unshuffled(5, 4, 6);
    for y in 0..4 {
        for x in 0..5 {
            assert_eq!(mf.cell_at(x, y).neighbor_mine_count, brute_force_neighbors(&mf, x, y));
        }
    }
}

#[test]
fn neighbor_counts_match_brute_force_on_random_board() {
    let mf = MineField::new(6, 5, 8);
    for y in 0..5 {
        for x in 0..6 {
            assert_eq!(mf.cell_at(x, y).neighbor_mine_count, brute_force_neighbors(&mf, x, y));
        }
    }
}

#[test]
fn revealing_a_revealed_cell_changes_nothing() {
    let mut mf = MineField::new_unshuffled(5, 5, 1);
    mf.discover(1, 1);
    let before = snapshot(&mf);
    mf.discover(1, 1);
    assert_eq!(snapshot(&mf), before);
}

#[test]
fn flood_reveal_is_idempotent() {
    let mut mf = MineField::new_unshuffled(3, 3, 1);
    mf.discover(2, 2);
    let before = snapshot(&mf);
    mf.discover(2, 2);
    assert_eq!(snapshot(&mf), before);
    mf.discover(2, 2);
    assert_eq!(snapshot(&mf), before);
}

#[test]
fn reveal_terminates_on_board_with_no_mines() {
    let mut mf = MineField::new_unshuffled(8, 8, 0);
    mf.discover(4, 4);
    assert_eq!(mf.revealed_count(), 64);
}

#[test]
fn attempt_out_of_bounds_is_a_silent_continue() {
    let mut mf = MineField::new_unshuffled(3, 3, 1);
    let before = snapshot(&mf);
    assert_eq!(mf.attempt(5, 7), State::Continue);
    assert_eq!(mf.attempt(3, 0), State::Continue);
    assert_eq!(mf.attempt(0, 3), State::Continue);
    assert_eq!(mf.attempt(1000, 1000), State::Continue);
    assert_eq!(snapshot(&mf), before);
}

#[test]
fn empty_three_by_three_wins_in_one_attempt() {
    let mut mf = MineField::new_unshuffled(3, 3, 0);
    assert_eq!(mf.attempt(0, 0), State::Win);
    assert_eq!(mf.revealed_count(), 9);
    for y in 0..3 {
        for x in 0..3 {
            assert!(mf.cell_at(x, y).is_revealed);
        }
    }
}

#[test]
fn hitting_the_mine_loses_and_shows_it() {
    let mut mf = MineField::new_unshuffled(2, 2, 1);
    assert!(mf.cell_at(0, 0).has_mine);
    assert_eq!(mf.attempt(0, 0), State::GameOver);
    assert!(mf.cell_at(0, 0).is_revealed);
}

#[test]
fn numbered_cell_reveals_only_itself() {
    let mut mf = MineField::new_unshuffled(5, 5, 1);
    assert!(mf.cell_at(0, 0).has_mine);
    assert_eq!(mf.cell_at(1, 1).neighbor_mine_count, 1);
    assert_eq!(mf.attempt(1, 1), State::Continue);
    assert_eq!(mf.revealed_count(), 1);
    for y in 0..5 {
        for x in 0..5 {
            assert_eq!(mf.cell_at(x, y).is_revealed, x == 1 && y == 1);
        }
    }
}

#[test]
fn revealing_a_mine_does_not_raise_the_revealed_count() {
    let mut mf = MineField::new_unshuffled(3, 3, 2);
    assert_eq!(mf.attempt(0, 0), State::GameOver);
    assert_eq!(mf.revealed_count(), 0);
}

#[test]
fn flood_from_far_corner_wins_and_shows_the_mine() {
    let mut mf = MineField::new_unshuffled(4, 4, 1);
    assert_eq!(mf.attempt(3, 3), State::Win);
    assert_eq!(mf.revealed_count(), 15);
    assert!(mf.cell_at(0, 0).is_revealed);
    for y in 0..4 {
        for x in 0..4 {
            assert!(mf.cell_at(x, y).is_revealed);
        }
    }
}

#[test]
fn game_continues_then_ends() {
    let mut mf = MineField::new_unshuffled(3, 1, 1);
    assert_eq!(mf.attempt(1, 0), State::Continue);
    assert_eq!(mf.attempt(2, 0), State::Win);
}

#[test]
fn one_cell_board_with_no_mine_wins_at_once() {
    let mut mf = MineField::new_unshuffled(1, 1, 0);
    assert_eq!(mf.attempt(0, 0), State::Win);
    assert_eq!(mf.revealed_count(), 1);
}

#[test]
fn largest_board_still_works() {
    let mut mf = MineField::new_unshuffled(255, 255, 10);
    assert_eq!(count_mines(&mf), 10);
    // mines fill the first ten cells of row zero, so (1, 1) touches three
    assert_eq!(mf.cell_at(1, 1).neighbor_mine_count, 3);
    assert_eq!(mf.attempt(1, 1), State::Continue);
    assert_eq!(mf.revealed_count(), 1);
}

#[test]
fn input_validity_matches_the_grid() {
    let mf = MineField::new_unshuffled(3, 2, 0);
    assert!(mf.is_inupt_valid(0, 0));
    assert!(mf.is_inupt_valid(2, 1));
    assert!(!mf.is_inupt_valid(3, 0));
    assert!(!mf.is_inupt_valid(0, 2));
    assert!(!mf.is_inupt_valid(300, 0));
}
