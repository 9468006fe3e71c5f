use tictactoe::session::{
    mark_for_turn, parse_cell_choice, parse_yes_no, player_for_turn, round_status, valid_size,
    RoundStatus,
};
use tictactoe::tictactoe::{label_for, letter_index, Mark, TicTacToe};

fn chars(s: &str) -> Vec<char> {
    s.chars().collect()
}

#[test]
fn fresh_board_all_cells_open() {
    for size in 2..=7usize {
        let g = TicTacToe::new(size);
        let mut open_cells = 0;
        for i in 0..52 {
            if g.check_valid_cell(label_for(i)) {
                open_cells += 1;
            }
        }
        assert_eq!(open_cells, size * size);
    }
}

#[test]
fn labels_are_distinct() {
    for i in 0..52 {
        for j in 0..52 {
            if i != j {
                assert_ne!(label_for(i), label_for(j));
            }
        }
    }
}

#[test]
fn label_alphabet_bounds() {
    assert_eq!(label_for(0), 'a');
    assert_eq!(label_for(25), 'z');
    assert_eq!(label_for(26), 'A');
    assert_eq!(label_for(51), 'Z');
    assert_eq!(letter_index('a'), Some(0));
    assert_eq!(letter_index('Z'), Some(51));
    assert_eq!(letter_index('?'), None);
    assert_eq!(letter_index('1'), None);
}

#[test]
fn valid_cell_rejects_unknown_and_taken() {
    let mut g = TicTacToe::new(2);
    // outside the map: not a letter, and a letter beyond the first four
    assert!(!g.check_valid_cell('3'));
    assert!(!g.check_valid_cell('!'));
    assert!(!g.check_valid_cell('e'));
    assert!(!g.check_valid_cell('A'));
    // taken cell
    assert!(g.check_valid_cell('a'));
    g.update_board('a', Mark::X);
    assert!(!g.check_valid_cell('a'));
    assert!(g.check_valid_cell('b'));
}

#[test]
fn update_ignores_unknown_label() {
    let mut g = TicTacToe::new(2);
    g.update_board('z', Mark::X);
    // nothing changed: all four cells still open
    for l in ['a', 'b', 'c', 'd'] {
        assert!(g.check_valid_cell(l));
    }
}

#[test]
fn win_on_each_line_small_board() {
    // rows of the 2x2 board: a b / c d
    let mut g = TicTacToe::new(2);
    g.update_board('a', Mark::X);
    assert!(!g.check_win(Mark::X));
    g.update_board('b', Mark::X);
    assert!(g.check_win(Mark::X));
    assert!(!g.check_win(Mark::O));

    let mut g = TicTacToe::new(2);
    g.update_board('c', Mark::O);
    g.update_board('d', Mark::O);
    assert!(g.check_win(Mark::O));

    // column
    let mut g = TicTacToe::new(2);
    g.update_board('a', Mark::X);
    g.update_board('c', Mark::X);
    assert!(g.check_win(Mark::X));

    // main diagonal
    let mut g = TicTacToe::new(2);
    g.update_board('a', Mark::O);
    g.update_board('d', Mark::O);
    assert!(g.check_win(Mark::O));

    // anti-diagonal
    let mut g = TicTacToe::new(2);
    g.update_board('b', Mark::X);
    g.update_board('c', Mark::X);
    assert!(g.check_win(Mark::X));

    // mixed marks on a line win for neither
    let mut g = TicTacToe::new(2);
    g.update_board('a', Mark::X);
    g.update_board('b', Mark::O);
    assert!(!g.check_win(Mark::X));
    assert!(!g.check_win(Mark::O));
}

#[test]
fn win_on_largest_board() {
    // top row of the 7x7 board: a..g
    let mut g = TicTacToe::new(7);
    for l in ['a', 'b', 'c', 'd', 'e', 'f', 'g'] {
        assert!(!g.check_win(Mark::X));
        g.update_board(l, Mark::X);
    }
    assert!(g.check_win(Mark::X));

    // main diagonal of the 7x7 board: indices 0, 8, 16, ...
    let mut g = TicTacToe::new(7);
    for k in 0..7 {
        assert!(!g.check_win(Mark::O));
        g.update_board(label_for(8 * k), Mark::O);
    }
    assert!(g.check_win(Mark::O));

    // anti-diagonal of the 7x7 board: indices 6, 12, 18, ...
    let mut g = TicTacToe::new(7);
    for k in 0..7 {
        assert!(!g.check_win(Mark::X));
        g.update_board(label_for(6 * (k + 1)), Mark::X);
    }
    assert!(g.check_win(Mark::X));

    // a broken row does not win
    let mut g = TicTacToe::new(7);
    for l in ['a', 'b', 'c', 'e', 'f', 'g'] {
        g.update_board(l, Mark::X);
    }
    assert!(!g.check_win(Mark::X));
}

#[test]
fn three_by_three_top_row_win() {
    // labels a,b,c / d,e,f / g,h,i; player 1 (X) completes the top row
    let mut g = TicTacToe::new(3);
    let moves = [('a', 0), ('e', 1), ('b', 2), ('i', 3), ('c', 4)];
    let mut count = 0;
    let mut winner = None;
    for (cell, turn) in moves {
        let mark = mark_for_turn(turn);
        assert!(g.check_valid_cell(cell));
        g.update_board(cell, mark);
        count += 1;
        match round_status(&g, count, mark) {
            RoundStatus::Won => {
                winner = Some(player_for_turn(turn));
                break;
            }
            RoundStatus::Tie => panic!("no tie expected"),
            RoundStatus::InProgress => {}
        }
    }
    assert_eq!(count, 5);
    assert_eq!(winner, Some(1));
}

#[test]
fn full_board_without_line_is_tie() {
    // ends as: X O X / O O X / X X O -- no row, column or diagonal complete
    let mut g = TicTacToe::new(3);
    let moves = [
        ('a', Mark::X),
        ('b', Mark::O),
        ('c', Mark::X),
        ('d', Mark::O),
        ('f', Mark::X),
        ('e', Mark::O),
        ('g', Mark::X),
        ('i', Mark::O),
        ('h', Mark::X),
    ];
    let mut count = 0;
    let mut status = RoundStatus::InProgress;
    for (cell, mark) in moves {
        assert!(g.check_valid_cell(cell));
        g.update_board(cell, mark);
        count += 1;
        status = round_status(&g, count, mark);
        if status != RoundStatus::InProgress {
            break;
        }
    }
    assert_eq!(count, 9);
    assert_eq!(status, RoundStatus::Tie);
}

#[test]
fn smallest_board_cannot_tie() {
    // on the 2x2 board every pair of cells lies on some line, so whoever
    // fills the board completes one: a and d make the main diagonal
    let mut g = TicTacToe::new(2);
    g.update_board('a', Mark::X);
    g.update_board('b', Mark::O);
    assert!(!g.check_win(Mark::O));
    g.update_board('d', Mark::X);
    assert!(g.check_win(Mark::X));
    g.update_board('c', Mark::O);
    assert!(g.check_win(Mark::O));
    assert_eq!(round_status(&g, 4, Mark::O), RoundStatus::Won);
}

#[test]
fn render_fresh_small_board() {
    let g = TicTacToe::new(2);
    assert_eq!(g.display_board(), " a | b \n-------\n c | d \n");
}

#[test]
fn render_fresh_three_by_three() {
    let g = TicTacToe::new(3);
    assert_eq!(
        g.display_board(),
        " a | b | c \n-----------\n d | e | f \n-----------\n g | h | i \n"
    );
}

#[test]
fn render_shows_placed_marks() {
    let mut g = TicTacToe::new(2);
    g.update_board('a', Mark::X);
    assert_eq!(g.display_board(), " X | b \n-------\n c | d \n");
    g.update_board('d', Mark::O);
    assert_eq!(g.display_board(), " X | b \n-------\n c | O \n");
}

#[test]
fn yes_no_answers() {
    assert_eq!(parse_yes_no(&chars("y")), Some(true));
    assert_eq!(parse_yes_no(&chars("YES")), Some(true));
    assert_eq!(parse_yes_no(&chars("Yes")), Some(true));
    assert_eq!(parse_yes_no(&chars("n")), Some(false));
    assert_eq!(parse_yes_no(&chars("No")), Some(false));
    assert_eq!(parse_yes_no(&chars("NO")), Some(false));
    assert_eq!(parse_yes_no(&chars("maybe")), None);
    assert_eq!(parse_yes_no(&chars("ye")), None);
    assert_eq!(parse_yes_no(&chars("")), None);
}

#[test]
fn cell_choice_must_be_one_character() {
    assert_eq!(parse_cell_choice(&chars("a")), Some('a'));
    assert_eq!(parse_cell_choice(&chars("ab")), None);
    assert_eq!(parse_cell_choice(&chars("")), None);
}

#[test]
fn grid_size_bounds() {
    assert!(!valid_size(0));
    assert!(!valid_size(1));
    assert!(valid_size(2));
    assert!(valid_size(7));
    assert!(!valid_size(8));
}

#[test]
fn turn_order_alternates() {
    assert_eq!(mark_for_turn(0), Mark::X);
    assert_eq!(mark_for_turn(1), Mark::O);
    assert_eq!(mark_for_turn(2), Mark::X);
    assert_eq!(player_for_turn(0), 1);
    assert_eq!(player_for_turn(1), 2);
    assert_eq!(player_for_turn(5), 2);
}

#[test]
fn overwrite_is_unconditional() {
    // the board itself does not guard a taken cell; the caller does
    let mut g = TicTacToe::new(2);
    g.update_board('a', Mark::X);
    g.update_board('a', Mark::O);
    g.update_board('b', Mark::O);
    assert!(g.check_win(Mark::O));
    assert!(!g.check_win(Mark::X));
}
