use takoyaki_arm::{dimensions_ok, is_square, parse_board, parse_row, solve};

fn rows(text: &[&str]) -> Vec<Vec<char>> {
    text.iter().map(|row| row.chars().collect()).collect()
}

#[test]
fn dimensions_ok_keeps_the_limits() {
    assert!(dimensions_ok(30, 450, 15));
    assert!(dimensions_ok(30, 90, 1));
    assert!(dimensions_ok(15, 23, 5));
    assert!(dimensions_ok(15, 112, 5));
    assert!(dimensions_ok(0, 0, 0));
    assert!(dimensions_ok(2, 1, 0));
    // A side above the limit.
    assert!(!dimensions_ok(31, 100, 5));
    assert!(!dimensions_ok(usize::MAX, 100, 5));
    // Fewer than a tenth of the cells, rounded up: 15 * 15 = 225, so at least 23.
    assert!(!dimensions_ok(15, 22, 5));
    // More than half of the cells, rounded down: at most 112.
    assert!(!dimensions_ok(15, 113, 5));
    // Too many nodes.
    assert!(!dimensions_ok(15, 50, 16));
    // A single cell leaves no number of items.
    assert!(!dimensions_ok(1, 0, 1));
    assert!(!dimensions_ok(1, 1, 1));
}

#[test]
fn parse_row_sets_the_ones() {
    assert_eq!(parse_row(&"0110".chars().collect()), vec![false, true, true, false]);
    assert_eq!(parse_row(&"1x 2".chars().collect()), vec![true, false, false, false]);
    assert_eq!(parse_row(&vec![]), Vec::<bool>::new());
}

#[test]
fn parse_board_reads_both_tables() {
    let board = parse_board(3, 2, &rows(&["100", "001", "000"]), &rows(&["100", "000", "010"]));
    assert_eq!(board.n, 3);
    assert_eq!(board.m, 2);
    assert_eq!(
        board.cur_board,
        vec![
            vec![true, false, false],
            vec![false, false, true],
            vec![false, false, false],
        ]
    );
    assert_eq!(
        board.final_board,
        vec![
            vec![true, false, false],
            vec![false, false, false],
            vec![false, true, false],
        ]
    );
    assert!(board.is_balanced());
}

#[test]
fn parse_board_of_no_cells() {
    let board = parse_board(0, 0, &vec![], &vec![]);
    assert_eq!(board.n, 0);
    assert!(board.cur_board.is_empty());
    assert!(board.final_board.is_empty());
}

#[test]
fn is_square_wants_n_rows_of_n() {
    assert!(is_square(&rows(&["10", "01"]), 2));
    assert!(is_square(&rows(&[]), 0));
    assert!(!is_square(&rows(&["10", "01"]), 3));
    assert!(!is_square(&rows(&["10", "011"]), 2));
    assert!(!is_square(&rows(&["10"]), 2));
}

#[test]
fn solve_gives_the_whole_answer() {
    // One item at (1,0), one target at (0,1), an arm of a root and one leaf.
    let lines = solve(2, 1, 2, &rows(&["00", "10"]), &rows(&["01", "00"])).unwrap();
    assert_eq!(lines, vec!["2", "0 1", "0 0", ".R.P", ".L.P"]);
}

#[test]
fn solve_of_a_larger_problem_ends_with_every_item_on_target() {
    let init = rows(&[
        "1000000001",
        "0000000000",
        "0010000100",
        "0000000000",
        "0000110000",
        "0000000000",
        "0010000100",
        "0000000000",
        "0000000000",
        "1000000001",
    ]);
    let fin = rows(&[
        "0000000000",
        "0111111110",
        "0000000000",
        "0000000000",
        "0000000000",
        "0000000000",
        "0000000000",
        "0000000000",
        "0000000000",
        "0000110000",
    ]);
    let lines = solve(10, 10, 4, &init, &fin).unwrap();
    assert_eq!(lines[0], "4");
    assert_eq!(&lines[1..4], ["0 1", "0 1", "0 1"]);
    assert_eq!(lines[4], "0 0");
    let turns = &lines[5..];
    assert!(!turns.is_empty());
    assert!(turns.len() < 100_000);
    // Every drop is a `P` of a leaf that holds an item; ten items arrive, so the
    // leaves interact twenty times in all.
    let interactions: usize = turns
        .iter()
        .map(|line| line.chars().skip(4).filter(|c| *c == 'P').count())
        .sum();
    assert_eq!(interactions, 20);
    for line in turns {
        assert_eq!(line.chars().count(), 8);
    }
}

#[test]
fn solve_refuses_what_is_no_problem() {
    let init = rows(&["00", "10"]);
    let fin = rows(&["01", "00"]);
    // No root.
    assert!(solve(2, 1, 0, &init, &fin).is_none());
    // Too many nodes.
    assert!(solve(2, 1, 16, &init, &fin).is_none());
    // The number of items is out of range for the side.
    assert!(solve(2, 3, 2, &init, &fin).is_none());
    // The tables do not have the declared side.
    assert!(solve(3, 1, 2, &init, &fin).is_none());
    assert!(solve(2, 1, 2, &rows(&["00", "1"]), &fin).is_none());
    // The tables hold more items, or more targets, than declared.
    assert!(solve(2, 1, 2, &rows(&["01", "10"]), &fin).is_none());
    assert!(solve(2, 1, 2, &init, &rows(&["01", "01"])).is_none());
}

#[test]
fn solve_of_the_empty_problem_gives_the_arm_alone() {
    let lines = solve(0, 0, 1, &vec![], &vec![]).unwrap();
    assert_eq!(lines, vec!["1", "0 0"]);
}
