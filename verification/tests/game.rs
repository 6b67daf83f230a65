use takoyaki_arm::{BoardState, Direction, GameState, Operation, Point, MAX_OPERATION_TURN};

fn table(rows: &[&str]) -> Vec<Vec<bool>> {
    rows.iter()
        .map(|row| row.chars().map(|c| c == '1').collect())
        .collect()
}

fn board(m: usize, cur: &[&str], fin: &[&str]) -> BoardState {
    BoardState {
        n: cur.len(),
        m,
        cur_board: table(cur),
        final_board: table(fin),
    }
}

fn count(table: &Vec<Vec<bool>>) -> usize {
    table.iter().flatten().filter(|b| **b).count()
}

fn arrived(game: &GameState) -> usize {
    let b = &game.board_state;
    (0..b.n)
        .flat_map(|i| (0..b.n).map(move |j| (i, j)))
        .filter(|&(i, j)| b.cur_board[i][j] && b.final_board[i][j])
        .count()
}

fn small_game() -> GameState {
    // Items at (0,2), (2,0), (3,3); targets at (1,1), (2,2), (3,3).
    GameState::new(
        3,
        board(
            3,
            &["0010", "0000", "1000", "0001"],
            &["0000", "0100", "0010", "0001"],
        ),
    )
}

#[test]
fn new_game_starts_at_origin_catching() {
    let game = small_game();
    assert_eq!(game.arrived_count, 1);
    assert!(game.mode_catch);
    assert!(game.operations.is_empty());
    assert_eq!(game.arm_state.root, Point { x: 0, y: 0 });
    assert_eq!(game.arm_state.init_root, Point { x: 0, y: 0 });
    assert_eq!(game.arm_state.num_node, 3);
    assert_eq!(game.arm_state.node_direction, vec![Direction::Right; 3]);
    assert_eq!(game.arm_state.node_have_takoyaki, vec![false; 3]);
    assert!(!game.is_finished());
}

#[test]
fn nearest_item_breaks_ties_by_reading_order() {
    let game = small_game();
    // (0,2) and (2,0) are both at distance 2 from the origin; (0,2) is read first.
    assert_eq!(game.find_nearest_takoyaki(), Point { x: 0, y: 2 });
    // (1,1) is the nearest target without an item.
    assert_eq!(game.find_nearest_vacant(), Point { x: 1, y: 1 });
    assert_eq!(game.nearest_cell(true), Some(Point { x: 0, y: 2 }));
}

#[test]
fn nearest_cell_is_none_without_candidates() {
    let game = GameState::new(2, board(1, &["10", "00"], &["10", "00"]));
    assert_eq!(game.nearest_cell(true), None);
    assert_eq!(game.nearest_cell(false), None);
    assert!(game.is_finished());
}

#[test]
fn eligibility_is_exclusive_on_every_cell() {
    let game = small_game();
    for x in -1..5 {
        for y in -1..5 {
            assert!(!(game.should_catch_takoyaki(x, y) && game.should_release_takoyaki(x, y)));
        }
    }
    assert!(game.should_catch_takoyaki(0, 2));
    assert!(!game.should_catch_takoyaki(3, 3));
    assert!(game.should_release_takoyaki(1, 1));
    assert!(!game.should_release_takoyaki(3, 3));
    assert!(!game.should_catch_takoyaki(-1, 0));
    assert!(!game.should_release_takoyaki(0, 4));
}

#[test]
fn legal_root_moves_in_fixed_order() {
    let mut game = small_game();
    assert_eq!(game.get_legal_root_move(), vec!['D', 'R']);
    game.arm_state.root = Point { x: 1, y: 1 };
    assert_eq!(game.get_legal_root_move(), vec!['U', 'D', 'L', 'R']);
    game.arm_state.root = Point { x: 3, y: 3 };
    assert_eq!(game.get_legal_root_move(), vec!['U', 'L']);
}

#[test]
fn leaves_act_from_the_root_after_its_move() {
    let mut game = small_game();
    game.action();
    // The objective (0,2) is two columns to the right: the root steps right to (0,1),
    // and leaf 1, which points right, picks the item up from there at once.
    assert_eq!(game.operations.len(), 1);
    assert_eq!(game.operations[0].encode(), "R...P.");
    assert_eq!(game.arm_state.root, Point { x: 0, y: 1 });
    assert_eq!(game.arm_state.node_have_takoyaki, vec![false, true, false]);
    assert!(!game.board_state.cur_board[0][2]);
    assert_eq!(game.arm_state.count_have_takoyaki(), 1);
    assert!(!game.arm_state.is_full());
    assert!(!game.arm_state.is_empty());
    assert!(game.mode_catch);
}

#[test]
fn root_closes_the_row_gap_first() {
    let mut game = small_game();
    game.action();
    game.action();
    // From (0,1) the nearest item off target is (2,0): rows first, so the root steps down.
    assert_eq!(game.operations[1].encode(), "D.....");
    assert_eq!(game.arm_state.root, Point { x: 1, y: 1 });
}

#[test]
fn root_waits_next_to_the_objective() {
    let mut game = GameState::new(2, board(1, &["000", "000", "100"], &["000", "000", "001"]));
    game.arm_state.root = Point { x: 1, y: 0 };
    game.action();
    // The item at (2,0) is one step below the root: the root stays and the leaf makes
    // a quarter turn clockwise, from right to down, to pick it up.
    assert_eq!(game.operations[0].encode(), ".R.P");
    assert_eq!(game.arm_state.root, Point { x: 1, y: 0 });
}

#[test]
fn root_steps_up_and_left_towards_the_objective() {
    let mut game = GameState::new(1, board(1, &["000", "100", "000"], &["000", "000", "001"]));
    game.arm_state.root = Point { x: 2, y: 2 };
    game.action();
    assert_eq!(game.operations[0].encode(), "U.");
    game.action();
    assert_eq!(game.operations[1].encode(), "L.");
    assert_eq!(game.arm_state.root, Point { x: 1, y: 1 });
    game.action();
    assert_eq!(game.operations[2].encode(), "..");
}

#[test]
fn root_on_the_objective_takes_the_first_legal_step() {
    // The only misplaced item lies under the root at (0,0).
    let mut game = GameState::new(2, board(1, &["10", "00"], &["00", "01"]));
    game.action();
    assert_eq!(game.operations[0].arm_move, 'D');
    assert_eq!(game.arm_state.root, Point { x: 1, y: 0 });
}

#[test]
fn leaf_rotates_clockwise_to_pick_up() {
    // Root at (0,0), leaf points right; the item lies below the root at (1,0), which
    // is the cell a quarter turn clockwise from right.
    let mut game = GameState::new(2, board(1, &["00", "10"], &["00", "01"]));
    game.action();
    assert_eq!(game.operations[0].encode(), ".R.P");
    assert_eq!(game.arm_state.node_direction[1], Direction::Down);
    assert_eq!(game.arm_state.node_have_takoyaki, vec![false, true]);
    assert!(!game.board_state.cur_board[1][0]);
    // The arm holds the only item off target: it goes over to putting down.
    assert!(!game.mode_catch);
}

#[test]
fn leaf_rotates_counter_clockwise_to_pick_up() {
    // Root at (1,0) pointing right; the item lies above at (0,0).
    let mut game = GameState::new(2, board(1, &["100", "000", "000"], &["000", "000", "001"]));
    game.arm_state.root = Point { x: 1, y: 0 };
    game.action();
    assert_eq!(game.operations[0].encode(), ".L.P");
    assert_eq!(game.arm_state.node_direction[1], Direction::Up);
}

#[test]
fn leaf_behind_the_cell_turns_once_and_acts_a_turn_later() {
    // Root at (1,1) pointing right; the item lies to the left at (1,0).
    let mut game = GameState::new(2, board(1, &["000", "100", "000"], &["000", "000", "001"]));
    game.arm_state.root = Point { x: 1, y: 1 };
    game.action();
    assert_eq!(game.operations[0].encode(), ".R..");
    assert_eq!(game.arm_state.node_direction[1], Direction::Down);
    assert_eq!(game.arm_state.node_have_takoyaki, vec![false, false]);
    game.action();
    // Now the item is a quarter turn clockwise from down.
    assert_eq!(game.operations[1].encode(), ".R.P");
    assert_eq!(game.arm_state.node_direction[1], Direction::Left);
    assert_eq!(game.arm_state.node_have_takoyaki, vec![false, true]);
}

#[test]
fn drop_raises_the_arrived_count_and_returns_to_catching() {
    let mut game = GameState::new(2, board(1, &["00", "10"], &["01", "00"]));
    game.action();
    assert!(!game.mode_catch);
    assert_eq!(game.arrived_count, 0);
    game.action();
    // The leaf points down after the pick-up; the target (0,1) is right of the root:
    // a quarter turn counter-clockwise from down.
    assert_eq!(game.operations[1].encode(), ".L.P");
    assert_eq!(game.arrived_count, 1);
    assert!(game.board_state.cur_board[0][1]);
    assert_eq!(game.arm_state.node_have_takoyaki, vec![false, false]);
    assert!(game.mode_catch);
    assert!(game.is_finished());
}

#[test]
fn later_leaves_see_what_earlier_leaves_did() {
    // One item right of the root and three leaves that all point right: only the first
    // leaf picks it up.
    let mut game = GameState::new(4, board(1, &["010", "000", "000"], &["000", "000", "001"]));
    game.action();
    assert_eq!(game.operations[0].encode(), ".....P..");
    assert_eq!(game.arm_state.node_have_takoyaki, vec![false, true, false, false]);
}

#[test]
fn full_arm_switches_to_releasing() {
    let mut game = GameState::new(2, board(2, &["010", "100", "000"], &["000", "000", "011"]));
    game.action();
    assert_eq!(game.arm_state.node_have_takoyaki, vec![false, true]);
    assert!(game.arm_state.is_full());
    assert!(!game.mode_catch);
}

#[test]
fn every_operation_has_a_symbol_for_each_node() {
    let mut game = small_game();
    game.run();
    for op in &game.operations {
        assert_eq!(op.node_rotate.len(), 3);
        assert_eq!(op.node_interact.len(), 3);
        assert_eq!(op.encode().chars().count(), 6);
    }
}

#[test]
fn carrying_never_exceeds_the_leaves() {
    let mut game = small_game();
    while !game.is_finished() {
        game.action();
        assert!(game.arm_state.count_have_takoyaki() <= game.arm_state.num_node - 1);
        assert!(!game.arm_state.node_have_takoyaki[0]);
    }
}

#[test]
fn arrived_count_never_falls() {
    let mut game = small_game();
    let mut last = arrived(&game);
    while !game.is_finished() {
        game.action();
        let now = arrived(&game);
        assert!(now >= last);
        assert_eq!(now, game.arrived_count);
        assert_eq!(
            count(&game.board_state.cur_board) + game.arm_state.count_have_takoyaki(),
            3
        );
        last = now;
    }
}

#[test]
fn run_delivers_every_item() {
    let mut game = small_game();
    game.run();
    assert!(game.is_finished());
    assert!(game.operations.len() <= MAX_OPERATION_TURN);
    assert_eq!(game.arrived_count, 3);
    assert_eq!(game.board_state.cur_board, game.board_state.final_board);
    assert_eq!(game.arm_state.count_have_takoyaki(), 0);
}

#[test]
fn run_equals_repeated_action() {
    let mut by_run = small_game();
    by_run.run();
    let mut by_hand = small_game();
    while !by_hand.is_finished() {
        by_hand.action();
    }
    let a: Vec<String> = by_run.operations.iter().map(Operation::encode).collect();
    let b: Vec<String> = by_hand.operations.iter().map(Operation::encode).collect();
    assert_eq!(a, b);
}

#[test]
fn run_stops_at_the_turn_limit() {
    // A lone root cannot carry: the run goes on until the limit.
    let mut game = GameState::new(1, board(1, &["00", "01"], &["10", "00"]));
    game.run();
    assert!(game.is_finished());
    assert_eq!(game.operations.len(), MAX_OPERATION_TURN);
    assert_eq!(game.arrived_count, 0);
}

#[test]
fn run_on_a_finished_board_emits_nothing() {
    let mut game = GameState::new(2, board(1, &["10", "00"], &["10", "00"]));
    game.run();
    assert!(game.operations.is_empty());
}

#[test]
fn output_lines_give_the_arm_then_the_operations() {
    let mut game = GameState::new(3, board(1, &["00", "10"], &["01", "00"]));
    game.run();
    let lines = game.output_lines();
    assert_eq!(lines[0], "3");
    assert_eq!(lines[1], "0 1");
    assert_eq!(lines[2], "0 1");
    assert_eq!(lines[3], "0 0");
    assert_eq!(lines.len(), 4 + game.operations.len());
    assert_eq!(lines[4], ".R..P.");
    for (line, op) in lines[4..].iter().zip(&game.operations) {
        assert_eq!(*line, op.encode());
    }
}

#[test]
fn operations_record_what_happens_to_the_arm() {
    let mut game = small_game();
    let mut root = game.arm_state.root;
    let mut directions = game.arm_state.node_direction.clone();
    let mut holding = game.arm_state.node_have_takoyaki.clone();
    while !game.is_finished() {
        let before = root;
        game.action();
        let op = game.operations.last().unwrap();
        if let Some(d) = Direction::from_symbol(op.arm_move) {
            root = Point { x: root.x + d.dx(), y: root.y + d.dy() };
        }
        for u in 0..directions.len() {
            directions[u] = match op.node_rotate[u] {
                'R' => directions[u].clockwise(),
                'L' => directions[u].counter_clockwise(),
                _ => directions[u],
            };
            if op.node_interact[u] == 'P' {
                holding[u] = !holding[u];
            }
        }
        assert_eq!(root, game.arm_state.root);
        assert!((root.x - before.x).abs() + (root.y - before.y).abs() <= 1);
        assert!(game.board_state.is_in_board(root.x, root.y));
        assert_eq!(directions, game.arm_state.node_direction);
        assert_eq!(holding, game.arm_state.node_have_takoyaki);
        assert_eq!(op.node_rotate[0], '.');
        assert_eq!(op.node_interact[0], '.');
    }
    assert_eq!(game.arm_state.init_root, Point { x: 0, y: 0 });
}
