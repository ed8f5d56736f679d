use blockfall::board::Board;
use blockfall::game::Game;
use blockfall::piece::Piece;
use blockfall::render::DrawCmd;
use blockfall::render::Glyph;
use blockfall::Color;
use blockfall::Point;

#[test]
fn empty_board_renders_only_borders() {
    let b = Board::new();
    let cmds = b.render();
    // 18 visible rows with two bars each, then 21 dashes
    assert_eq!(cmds.len(), 36 + 21);
    assert_eq!(
        cmds[0],
        DrawCmd { x: 0, y: 2, fg: Color::Red, bg: Color::Black, glyph: Glyph::Bar }
    );
    assert_eq!(
        cmds[1],
        DrawCmd { x: 21, y: 2, fg: Color::Red, bg: Color::Black, glyph: Glyph::Bar }
    );
    assert_eq!(
        cmds[36],
        DrawCmd { x: 0, y: 20, fg: Color::Red, bg: Color::Black, glyph: Glyph::Dash }
    );
    assert_eq!(
        cmds[56],
        DrawCmd { x: 20, y: 20, fg: Color::Red, bg: Color::Black, glyph: Glyph::Dash }
    );
}

#[test]
fn locked_cells_render_as_double_width_blocks() {
    let mut b = Board::new();
    let o = Piece::new_o();
    b.lock_piece(&o, Point { x: 4, y: 18 });
    let cmds = b.render();
    assert_eq!(cmds.len(), 57 + 8);
    assert_eq!(
        cmds[57],
        DrawCmd { x: 9, y: 18, fg: Color::Cyan, bg: Color::Cyan, glyph: Glyph::Cell }
    );
    assert_eq!(
        cmds[58],
        DrawCmd { x: 10, y: 18, fg: Color::Cyan, bg: Color::Cyan, glyph: Glyph::Cell }
    );
}

#[test]
fn frame_contains_banners_and_pieces() {
    let g = Game::new();
    let cmds = g.render();
    let banners: Vec<&DrawCmd> = cmds
        .iter()
        .filter(|c| {
            matches!(
                c.glyph,
                Glyph::LevelBanner | Glyph::ScoreBanner(_) | Glyph::NextBanner
            )
        })
        .collect();
    assert_eq!(banners.len(), 3);
    assert!(cmds.iter().any(|c| c.glyph == Glyph::ScoreBanner(0)));
    // the falling piece and its ghost each stage two glyphs per occupied cell
    let cells = cmds.iter().filter(|c| c.glyph == Glyph::Cell).count();
    let occupied = g
        .piece
        .shape
        .iter()
        .map(|r| r.iter().filter(|v| **v != 0).count())
        .sum::<usize>();
    // falling piece, ghost, and the next-piece preview (at least 4 cells)
    assert!(cells >= 4 * occupied);
}

#[test]
fn game_over_screen_shows_final_score() {
    let mut g = Game::new();
    g.score = 1234;
    let cmds = g.display_game_over_screen();
    assert_eq!(cmds.len(), 3);
    assert_eq!(cmds[0].glyph, Glyph::GameOverBanner);
    assert_eq!(cmds[1].glyph, Glyph::FinalScoreBanner(1234));
    assert_eq!(cmds[2].glyph, Glyph::RestartBanner);
    assert_eq!((cmds[0].x, cmds[0].y), (10, 10));
    assert_eq!((cmds[1].x, cmds[1].y), (10, 12));
    assert_eq!((cmds[2].x, cmds[2].y), (10, 14));
}
