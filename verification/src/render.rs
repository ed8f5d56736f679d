use vstd::prelude::*;
use crate::Color;
use crate::Point;
use crate::BOARD_HEIGHT;
use crate::BOARD_WIDTH;
use crate::HIDDEN_ROWS;
use crate::board::Board;
use crate::board::cell_free;
use crate::board::spec_collides;
use crate::game::drop_y;
use crate::game::Game;
use crate::piece::occ;
use crate::piece::raster_pts;
use crate::piece::lemma_raster_sound;
use crate::piece::Piece;

verus! {

/// What one staged glyph shows: a border bar or dash, one half of a filled
/// cell, or a text banner that the terminal layer formats.
#[derive(Clone, Copy, PartialEq, Eq, Structural, Debug)]
pub enum Glyph {
    Bar,
    Dash,
    Cell,
    LevelBanner,
    ScoreBanner(u32),
    NextBanner,
    GameOverBanner,
    FinalScoreBanner(u32),
    RestartBanner,
}

/// One staged glyph: a position, foreground and background colours, and
/// what to show there.
#[derive(Clone, Copy, PartialEq, Eq, Structural, Debug)]
pub struct DrawCmd {
    pub x: u32,
    pub y: u32,
    pub fg: Color,
    pub bg: Color,
    pub glyph: Glyph,
}

pub open spec fn bar_at(x: int, y: int) -> DrawCmd {
    DrawCmd { x: x as u32, y: y as u32, fg: Color::Red, bg: Color::Black, glyph: Glyph::Bar }
}

pub open spec fn dash_at(x: int, y: int) -> DrawCmd {
    DrawCmd { x: x as u32, y: y as u32, fg: Color::Red, bg: Color::Black, glyph: Glyph::Dash }
}

pub open spec fn cell_at(x: int, y: int, color: Color) -> DrawCmd {
    DrawCmd { x: x as u32, y: y as u32, fg: color, bg: color, glyph: Glyph::Cell }
}

pub open spec fn banner_at(x: int, y: int, glyph: Glyph) -> DrawCmd {
    DrawCmd { x: x as u32, y: y as u32, fg: Color::Red, bg: Color::Black, glyph }
}

/// The side-border bars of the visible rows below `y`, two per row.
pub open spec fn border_cmds_upto(y: int) -> Seq<DrawCmd>
    decreases y,
{
    if y <= HIDDEN_ROWS {
        Seq::empty()
    } else {
        border_cmds_upto(y - 1) + seq![
            bar_at(0, y - 1),
            bar_at(2 * BOARD_WIDTH + 1, y - 1),
        ]
    }
}

/// The bottom-border dashes at columns below `x`.
pub open spec fn bottom_cmds_upto(x: int) -> Seq<DrawCmd>
    decreases x,
{
    if x <= 0 {
        Seq::empty()
    } else {
        bottom_cmds_upto(x - 1) + seq![dash_at(x - 1, BOARD_HEIGHT as int)]
    }
}

/// The two half-cell glyphs of one board cell, or nothing if it is empty.
pub open spec fn cell_cmds(g: Seq<Seq<Option<Color>>>, y: int, x: int) -> Seq<DrawCmd> {
    match g[y][x] {
        Some(color) => seq![cell_at(1 + 2 * x, y, color), cell_at(2 + 2 * x, y, color)],
        None => Seq::empty(),
    }
}

/// The glyphs of the cells of row `y` whose column lies below `x`.
pub open spec fn row_cmds_upto(g: Seq<Seq<Option<Color>>>, y: int, x: int) -> Seq<DrawCmd>
    decreases x,
{
    if x <= 0 {
        Seq::empty()
    } else {
        row_cmds_upto(g, y, x - 1) + cell_cmds(g, y, x - 1)
    }
}

/// The glyphs of the occupied cells of the rows below `y`, in raster order.
pub open spec fn cells_cmds_upto(g: Seq<Seq<Option<Color>>>, y: int) -> Seq<DrawCmd>
    decreases y,
{
    if y <= 0 {
        Seq::empty()
    } else {
        cells_cmds_upto(g, y - 1) + row_cmds_upto(g, y - 1, BOARD_WIDTH as int)
    }
}

/// Everything the board contributes to a frame: side borders, bottom
/// border, then the occupied cells in raster order.
pub open spec fn board_cmds(g: Seq<Seq<Option<Color>>>) -> Seq<DrawCmd> {
    border_cmds_upto(BOARD_HEIGHT as int) + bottom_cmds_upto(2 * BOARD_WIDTH + 1)
        + cells_cmds_upto(g, BOARD_HEIGHT as int)
}

/// The two half-cell glyphs of the occupied offsets `pts[..i]` of a piece
/// drawn at origin `(ox, oy)`, columns doubled for the two-wide cells.
pub open spec fn piece_cmds_upto(
    color: Color,
    ox: int,
    oy: int,
    pts: Seq<Point>,
    i: int,
) -> Seq<DrawCmd>
    decreases i,
{
    if i <= 0 {
        Seq::empty()
    } else {
        piece_cmds_upto(color, ox, oy, pts, i - 1) + seq![
            cell_at(ox + 2 * pts[i - 1].x, oy + pts[i - 1].y, color),
            cell_at(ox + 2 * pts[i - 1].x + 1, oy + pts[i - 1].y, color),
        ]
    }
}

/// Everything a piece at origin `(ox, oy)` contributes to a frame.
pub open spec fn piece_cmds(m: Seq<Seq<u8>>, color: Color, ox: int, oy: int) -> Seq<DrawCmd> {
    piece_cmds_upto(color, ox, oy, raster_pts(m), raster_pts(m).len() as int)
}

impl Board {
    /// Stages the frame glyphs for the playfield: the side borders of the
    /// visible rows, the bottom border, and one two-wide block per occupied
    /// cell.
    pub fn render(&self) -> (cmds: Vec<DrawCmd>)
        requires
            self.wf(),
        ensures
            cmds@ == board_cmds(self@),
    {
        let ghost g = self@;
        let mut cmds: Vec<DrawCmd> = Vec::new();
        let mut y: u32 = HIDDEN_ROWS;
        while y < BOARD_HEIGHT
            invariant
                self.wf(),
                g == self@,
                HIDDEN_ROWS <= y <= BOARD_HEIGHT,
                cmds@ == border_cmds_upto(y as int),
            decreases BOARD_HEIGHT - y,
        {
            cmds.push(DrawCmd {
                x: 0,
                y,
                fg: Color::Red,
                bg: Color::Black,
                glyph: Glyph::Bar,
            });
            cmds.push(DrawCmd {
                x: BOARD_WIDTH * 2 + 1,
                y,
                fg: Color::Red,
                bg: Color::Black,
                glyph: Glyph::Bar,
            });
            y = y + 1;
            proof {
                assert(cmds@ =~= border_cmds_upto(y as int));
            }
        }
        let mut x: u32 = 0;
        while x < BOARD_WIDTH * 2 + 1
            invariant
                self.wf(),
                g == self@,
                x <= BOARD_WIDTH * 2 + 1,
                cmds@ == border_cmds_upto(BOARD_HEIGHT as int) + bottom_cmds_upto(x as int),
            decreases BOARD_WIDTH * 2 + 1 - x,
        {
            cmds.push(DrawCmd {
                x,
                y: BOARD_HEIGHT,
                fg: Color::Red,
                bg: Color::Black,
                glyph: Glyph::Dash,
            });
            x = x + 1;
            proof {
                assert(cmds@ =~= border_cmds_upto(BOARD_HEIGHT as int) + bottom_cmds_upto(
                    x as int,
                ));
            }
        }
        let ghost borders = cmds@;
        let mut row: u32 = 0;
        while row < BOARD_HEIGHT
            invariant
                self.wf(),
                g == self@,
                row <= BOARD_HEIGHT,
                borders == border_cmds_upto(BOARD_HEIGHT as int) + bottom_cmds_upto(
                    2 * BOARD_WIDTH + 1,
                ),
                cmds@ == borders + cells_cmds_upto(g, row as int),
            decreases BOARD_HEIGHT - row,
        {
            let mut col: u32 = 0;
            while col < BOARD_WIDTH
                invariant
                    self.wf(),
                    g == self@,
                    row < BOARD_HEIGHT,
                    col <= BOARD_WIDTH,
                    borders == border_cmds_upto(BOARD_HEIGHT as int) + bottom_cmds_upto(
                        2 * BOARD_WIDTH + 1,
                    ),
                    cmds@ == borders + cells_cmds_upto(g, row as int) + row_cmds_upto(
                        g,
                        row as int,
                        col as int,
                    ),
                decreases BOARD_WIDTH - col,
            {
                proof {
                    assert(self.cells@.len() == BOARD_HEIGHT as int);
                    assert(g[row as int] == self.cells@[row as int]@);
                }
                if let Some(color) = self.cells[row as usize][col as usize] {
                    let c: u32 = 1 + (col * 2);
                    cmds.push(DrawCmd { x: c, y: row, fg: color, bg: color, glyph: Glyph::Cell });
                    cmds.push(DrawCmd {
                        x: c + 1,
                        y: row,
                        fg: color,
                        bg: color,
                        glyph: Glyph::Cell,
                    });
                }
                col = col + 1;
                proof {
                    assert(cmds@ =~= borders + cells_cmds_upto(g, row as int) + row_cmds_upto(
                        g,
                        row as int,
                        col as int,
                    ));
                }
            }
            row = row + 1;
            proof {
                assert(cells_cmds_upto(g, row as int) == cells_cmds_upto(g, row - 1)
                    + row_cmds_upto(g, row - 1, BOARD_WIDTH as int));
                assert(cmds@ =~= borders + cells_cmds_upto(g, row as int));
            }
        }
        proof {
            assert(cmds@ =~= board_cmds(g));
        }
        cmds
    }
}

impl Game {
    /// Stages the two-wide blocks of one piece drawn at origin `(ox, oy)`,
    /// given in display columns; used for the falling piece, its ghost, and
    /// the next-piece preview.
    pub fn render_piece(&self, piece: &Piece, origin: Point) -> (cmds: Vec<DrawCmd>)
        requires
            piece.wf(),
            forall|r: int, c: int|
                0 <= r < piece.size() && 0 <= c < piece.size() && #[trigger] occ(
                    piece.matrix(),
                    r,
                    c,
                ) ==> 0 <= origin.x + 2 * c && origin.x + 2 * c + 1 <= u32::MAX && 0 <= origin.y
                    + r <= u32::MAX,
        ensures
            cmds@ == piece_cmds(piece.matrix(), piece.color, origin.x as int, origin.y as int),
    {
        let ghost m = piece.matrix();
        let ghost ox = origin.x as int;
        let ghost oy = origin.y as int;
        proof {
            lemma_raster_sound(m);
        }
        let pts = piece.each_point();
        let mut cmds: Vec<DrawCmd> = Vec::new();
        let mut i: usize = 0;
        while i < pts.len()
            invariant
                piece.wf(),
                m == piece.matrix(),
                ox == origin.x as int,
                oy == origin.y as int,
                pts@ == raster_pts(m),
                forall|j: int| 0 <= j < pts@.len() ==> {
                    let p = #[trigger] pts@[j];
                    0 <= p.y < m.len() && 0 <= p.x < m.len() && occ(m, p.y as int, p.x as int)
                },
                forall|r: int, c: int|
                    0 <= r < piece.size() && 0 <= c < piece.size() && #[trigger] occ(m, r, c)
                        ==> 0 <= ox + 2 * c && ox + 2 * c + 1 <= u32::MAX && 0 <= oy + r
                        <= u32::MAX,
                i <= pts@.len(),
                cmds@ == piece_cmds_upto(piece.color, ox, oy, pts@, i as int),
            decreases pts@.len() - i,
        {
            let p = pts[i];
            let x: u32 = ((origin.x as i64 + 2 * (p.x as i64)) as u64) as u32;
            let y: u32 = ((origin.y as i64 + p.y as i64) as u64) as u32;
            cmds.push(DrawCmd { x, y, fg: piece.color, bg: piece.color, glyph: Glyph::Cell });
            cmds.push(DrawCmd { x: x + 1, y, fg: piece.color, bg: piece.color, glyph: Glyph::Cell });
            i = i + 1;
            proof {
                assert(cmds@ =~= piece_cmds_upto(piece.color, ox, oy, pts@, i as int));
            }
        }
        cmds
    }
}

/// Everything one running-game frame stages, in order: the board, the level
/// and score banners, the falling piece, its ghost at the drop row, the
/// next-piece banner, and the next-piece preview.
pub open spec fn frame_cmds(game: Game) -> Seq<DrawCmd> {
    let lm = 2 * BOARD_WIDTH as int + 5;
    let px = game.piece_position.x as int;
    let py = game.piece_position.y as int;
    let m = game.piece.matrix();
    let gy = drop_y(game.board@, m, px, py);
    let nxt = game.piece_bag.pieces@[0];
    board_cmds(game.board@) + seq![
        banner_at(lm, 3, Glyph::LevelBanner),
        banner_at(lm, 4, Glyph::ScoreBanner(game.score)),
    ] + piece_cmds(m, game.piece.color, 1 + 2 * px, py) + piece_cmds(
        m,
        game.piece.color,
        1 + 2 * px,
        gy,
    ) + seq![banner_at(lm, 7, Glyph::NextBanner)] + piece_cmds(
        nxt.matrix(),
        nxt.color,
        lm + 2,
        9,
    )
}

/// The three banners of the end screen: the game-over message, the final
/// score, and the restart-or-quit prompt.
pub open spec fn game_over_cmds(game: Game) -> Seq<DrawCmd> {
    seq![
        banner_at(10, 10, Glyph::GameOverBanner),
        banner_at(10, 12, Glyph::FinalScoreBanner(game.score)),
        banner_at(10, 14, Glyph::RestartBanner),
    ]
}

impl Game {
    /// Stages one full frame of a running game.
    pub fn render(&self) -> (cmds: Vec<DrawCmd>)
        requires
            self.wf(),
            !self.game_over,
        ensures
            cmds@ == frame_cmds(*self),
    {
        let ghost g = self.board@;
        let ghost m = self.piece.matrix();
        let ghost px = self.piece_position.x as int;
        let ghost py = self.piece_position.y as int;
        let left_margin: u32 = BOARD_WIDTH * 2 + 5;
        let mut cmds = self.board.render();
        cmds.push(DrawCmd {
            x: left_margin,
            y: 3,
            fg: Color::Red,
            bg: Color::Black,
            glyph: Glyph::LevelBanner,
        });
        cmds.push(DrawCmd {
            x: left_margin,
            y: 4,
            fg: Color::Red,
            bg: Color::Black,
            glyph: Glyph::ScoreBanner(self.score),
        });
        let x: i32 = 1 + (2 * self.piece_position.x);
        proof {
            assert forall|r: int, c: int|
                0 <= r < self.piece.size() && 0 <= c < self.piece.size() && #[trigger] occ(m, r, c)
                    implies 0 <= x + 2 * c && x + 2 * c + 1 <= u32::MAX && 0 <= py + r
                    <= u32::MAX by {
                if !cell_free(g, px + c, py + r) {
                    assert(spec_collides(g, m, px, py));
                }
            }
        }
        let mut pc = self.render_piece(&self.piece, Point { x, y: self.piece_position.y });
        cmds.append(&mut pc);
        let ghost_position = self.find_dropped_position();
        proof {
            assert forall|r: int, c: int|
                0 <= r < self.piece.size() && 0 <= c < self.piece.size() && #[trigger] occ(m, r, c)
                    implies 0 <= x + 2 * c && x + 2 * c + 1 <= u32::MAX && 0 <= ghost_position.y
                    + r <= u32::MAX by {
                if !cell_free(g, px + c, ghost_position.y + r) {
                    assert(spec_collides(g, m, px, ghost_position.y as int));
                }
            }
        }
        let mut gc = self.render_piece(&self.piece, Point { x, y: ghost_position.y });
        cmds.append(&mut gc);
        cmds.push(DrawCmd {
            x: left_margin,
            y: 7,
            fg: Color::Red,
            bg: Color::Black,
            glyph: Glyph::NextBanner,
        });
        let next_piece = self.piece_bag.peek();
        let mut nc = self.render_piece(
            &next_piece,
            Point { x: (left_margin as i32) + 2, y: 9 },
        );
        cmds.append(&mut nc);
        proof {
            assert(cmds@ =~= frame_cmds(*self));
        }
        cmds
    }

    /// Stages the dedicated end screen.
    pub fn display_game_over_screen(&self) -> (cmds: Vec<DrawCmd>)
        ensures
            cmds@ == game_over_cmds(*self),
    {
        let mut cmds: Vec<DrawCmd> = Vec::new();
        cmds.push(DrawCmd {
            x: 10,
            y: 10,
            fg: Color::Red,
            bg: Color::Black,
            glyph: Glyph::GameOverBanner,
        });
        cmds.push(DrawCmd {
            x: 10,
            y: 12,
            fg: Color::Red,
            bg: Color::Black,
            glyph: Glyph::FinalScoreBanner(self.score),
        });
        cmds.push(DrawCmd {
            x: 10,
            y: 14,
            fg: Color::Red,
            bg: Color::Black,
            glyph: Glyph::RestartBanner,
        });
        proof {
            assert(cmds@ =~= game_over_cmds(*self));
        }
        cmds
    }
}

} // verus!
