use blockfall::bag::PieceBag;
use blockfall::game::Game;
use blockfall::game::GameUpdate;
use blockfall::game::LoopAction;
use blockfall::game::route_event;
use blockfall::piece::Piece;
use blockfall::Color;
use blockfall::Key;

#[test]
fn bag_peek_never_aborts_after_pops() {
    let mut bag = PieceBag::new();
    for _ in 0..30 {
        let front = bag.peek();
        let popped = bag.pop();
        // peek reports the piece the following pop removes
        assert_eq!(front.shape, popped.shape);
        assert_eq!(front.color, popped.color);
        // and the freshly refilled bag can be peeked again at once
        let next = bag.peek();
        assert!(next.shape.len() >= 2 && next.shape.len() <= 4);
    }
}

#[test]
fn bag_pop_yields_canonical_pieces() {
    let canon = [
        Piece::new_o(),
        Piece::new_l(),
        Piece::new_j(),
        Piece::new_t(),
        Piece::new_s(),
        Piece::new_z(),
        Piece::new_i(),
    ];
    let mut bag = PieceBag::new();
    for _ in 0..20 {
        let p = bag.pop();
        assert!(canon
            .iter()
            .any(|c| c.shape == p.shape && c.color == p.color));
    }
}

#[test]
fn fresh_game_starts_clean() {
    let g = Game::new();
    assert!(!g.game_over);
    assert_eq!(g.score, 0);
    assert_eq!(g.level, 0);
    assert_eq!(g.total_lines, 0);
    assert_eq!(g.piece_position.y, 0);
    let n = g.piece.shape.len() as i32;
    assert_eq!(g.piece_position.x, (10 - n) / 2);
}

#[test]
fn moving_left_stops_at_the_wall() {
    let mut g = Game::new();
    let mut guard = 0;
    while g.move_piece(-1, 0) {
        guard += 1;
        assert!(guard < 20);
    }
    // every canonical piece occupies its leftmost matrix column at spawn
    assert_eq!(g.piece_position.x, 0);
}

#[test]
fn o_piece_falls_to_the_bottom_without_clearing_lines() {
    let mut g = Game::new();
    g.piece = Piece::new_o();
    assert!(g.place_new_piece());
    // the O piece occupies matrix rows 0 and 1, so it rests at row 18
    for step in 0..18 {
        assert!(g.advance_game(), "gravity step {} failed", step);
        assert_eq!(g.piece_position.y, step + 1);
    }
    // the next step cannot move down: it locks and spawns the next piece
    assert!(g.advance_game());
    assert_eq!(g.board.cells[18][4], Some(Color::Cyan));
    assert_eq!(g.board.cells[18][5], Some(Color::Cyan));
    assert_eq!(g.board.cells[19][4], Some(Color::Cyan));
    assert_eq!(g.board.cells[19][5], Some(Color::Cyan));
    assert_eq!(g.total_lines, 0);
    assert_eq!(g.score, 0);
    assert_eq!(g.piece_position.y, 0);
}

#[test]
fn clearing_two_lines_awards_one_hundred_points() {
    let mut g = Game::new();
    // fill the two bottom rows except the columns the O piece will land in
    for x in 0..10 {
        if x != 4 && x != 5 {
            g.board.cells[18][x] = Some(Color::Red);
            g.board.cells[19][x] = Some(Color::Red);
        }
    }
    g.piece = Piece::new_o();
    assert!(g.place_new_piece());
    assert!(g.drop_piece());
    assert_eq!(g.score, 100);
    assert_eq!(g.total_lines, 2);
    assert_eq!(g.level, 1);
    // the completed rows are gone
    assert_eq!(g.board.cells[19][0], None);
    assert_eq!(g.board.cells[19][4], None);
}

#[test]
fn clearing_one_line_awards_forty_points() {
    let mut g = Game::new();
    for x in 0..10 {
        if x != 4 && x != 5 {
            g.board.cells[19][x] = Some(Color::Red);
        }
    }
    g.piece = Piece::new_o();
    assert!(g.place_new_piece());
    assert!(g.drop_piece());
    assert_eq!(g.score, 40);
    assert_eq!(g.total_lines, 1);
    // the upper half of the O piece survives the clear and sinks one row
    assert_eq!(g.board.cells[19][4], Some(Color::Cyan));
    assert_eq!(g.board.cells[19][5], Some(Color::Cyan));
    assert_eq!(g.board.cells[19][0], None);
}

#[test]
fn score_is_additive_across_clear_events() {
    let mut g = Game::new();
    for x in 0..10 {
        if x != 4 && x != 5 {
            g.board.cells[19][x] = Some(Color::Red);
        }
    }
    g.piece = Piece::new_o();
    assert!(g.place_new_piece());
    assert!(g.drop_piece());
    assert_eq!(g.score, 40);
    // prepare a second single-line clear for the next drop
    for x in 0..10 {
        if x != 4 && x != 5 {
            g.board.cells[19][x] = Some(Color::Red);
        }
    }
    g.board.cells[19][4] = None;
    g.board.cells[19][5] = None;
    g.piece = Piece::new_o();
    assert!(g.place_new_piece());
    assert!(g.drop_piece());
    assert_eq!(g.score, 80);
    assert_eq!(g.total_lines, 2);
}

#[test]
fn blocked_spawn_fails_placement() {
    let mut g = Game::new();
    // blocking cells in the two hidden top rows under every spawn column
    for x in 2..8 {
        g.board.cells[0][x] = Some(Color::Red);
        g.board.cells[1][x] = Some(Color::Red);
    }
    g.piece = Piece::new_o();
    assert!(!g.place_new_piece());
}

#[test]
fn stacking_to_the_top_ends_the_game() {
    let mut g = Game::new();
    let mut drops = 0;
    loop {
        drops += 1;
        assert!(drops < 300, "the game never ended");
        if !g.drop_piece() {
            break;
        }
    }
    assert!(g.game_over);
}

#[test]
fn rotate_fails_against_the_wall() {
    let mut g = Game::new();
    g.piece = Piece::new_i();
    assert!(g.place_new_piece());
    while g.move_piece(-1, 0) {}
    assert_eq!(g.piece_position.x, 0);
    // the I piece lies in matrix row 1; rotated left it stands in matrix
    // column 1, which at origin x == 0 stays on the board
    assert!(g.rotate_piece(blockfall::Direction::Left));
    // now at column 1 of the matrix; moving one more step left still works
    assert!(g.move_piece(-1, 0));
    assert_eq!(g.piece_position.x, -1);
    assert!(!g.move_piece(-1, 0));
}

#[test]
fn keypress_dispatches_moves() {
    let mut g = Game::new();
    let x0 = g.piece_position.x;
    g.keypress(Key::Left);
    assert_eq!(g.piece_position.x, x0 - 1);
    g.keypress(Key::Right);
    assert_eq!(g.piece_position.x, x0);
    let y0 = g.piece_position.y;
    g.keypress(Key::Down);
    assert_eq!(g.piece_position.y, y0 + 1);
    let score = g.score;
    g.keypress(Key::Char('x'));
    assert_eq!(g.piece_position.y, y0 + 1);
    assert_eq!(g.score, score);
}

#[test]
fn game_over_condition_reports_blocked_spawn() {
    let mut g = Game::new();
    assert!(!g.game_over_condition());
    for x in 0..10 {
        g.board.cells[0][x] = Some(Color::Red);
        g.board.cells[1][x] = Some(Color::Red);
        g.board.cells[2][x] = Some(Color::Red);
        g.board.cells[3][x] = Some(Color::Red);
    }
    assert!(g.game_over_condition());
}

#[test]
fn find_dropped_position_projects_straight_down() {
    let mut g = Game::new();
    g.piece = Piece::new_o();
    assert!(g.place_new_piece());
    let ghost_pos = g.find_dropped_position();
    assert_eq!(ghost_pos.x, g.piece_position.x);
    assert_eq!(ghost_pos.y, 18);
    // an obstacle raises the resting row
    g.board.cells[15][4] = Some(Color::Red);
    let ghost_pos = g.find_dropped_position();
    assert_eq!(ghost_pos.y, 13);
}

#[test]
fn route_event_dispatches_by_state() {
    assert_eq!(
        route_event(false, GameUpdate::KeyPress(Key::CtrlC)),
        LoopAction::Quit
    );
    assert_eq!(
        route_event(true, GameUpdate::KeyPress(Key::Char('z'))),
        LoopAction::Quit
    );
    assert_eq!(
        route_event(true, GameUpdate::KeyPress(Key::Char('r'))),
        LoopAction::Restart
    );
    assert_eq!(
        route_event(true, GameUpdate::KeyPress(Key::Left)),
        LoopAction::Ignore
    );
    assert_eq!(
        route_event(false, GameUpdate::KeyPress(Key::Left)),
        LoopAction::Forward(Key::Left)
    );
    assert_eq!(route_event(false, GameUpdate::Tick), LoopAction::Advance);
    assert_eq!(route_event(true, GameUpdate::Tick), LoopAction::Ignore);
}
