use vstd::prelude::*;
use crate::Color;
use crate::Direction;
use crate::Key;
use crate::Point;
use crate::BOARD_HEIGHT;
use crate::BOARD_WIDTH;
use crate::bag::PieceBag;
use crate::bag::piece_canonical;
use crate::board::Board;
use crate::board::cell_free;
use crate::board::empty_row;
use crate::board::empty_rows;
use crate::board::spec_cleared;
use crate::board::spec_collides;
use crate::board::spec_lines_cleared;
use crate::board::spec_locked;
use crate::board::lemma_kept_upto_len;
use crate::piece::occ;
use crate::piece::rot_left;
use crate::piece::rot_right;
use crate::piece::Piece;

verus! {

/// The score awarded for clearing `lines` rows in one lock.
pub open spec fn score_award(lines: int) -> int {
    if lines == 1 {
        40
    } else if lines == 2 {
        100
    } else if lines == 3 {
        300
    } else if lines == 4 {
        1200
    } else {
        0
    }
}

/// The horizontally centred spawn column for a piece of side `n`.
pub open spec fn spawn_col(n: int) -> int {
    (BOARD_WIDTH - n) / 2
}

/// The row at which the piece placed at column `x` comes to rest when it
/// falls from row `y`: the last row at or below `y` that is reached without
/// a collision.
pub open spec fn drop_y(g: Seq<Seq<Option<Color>>>, m: Seq<Seq<u8>>, x: int, y: int) -> int
    decreases BOARD_HEIGHT - y,
        when y <= BOARD_HEIGHT
{
    if y >= BOARD_HEIGHT || spec_collides(g, m, x, y + 1) {
        y
    } else {
        drop_y(g, m, x, y + 1)
    }
}

/// A non-colliding origin of a well-formed piece lies in a narrow band
/// around the board.
pub proof fn lemma_noncolliding_origin(g: Seq<Seq<Option<Color>>>, p: &Piece, ox: int, oy: int)
    requires
        p.wf(),
        !spec_collides(g, p.matrix(), ox, oy),
    ensures
        1 - p.size() <= ox < BOARD_WIDTH,
        1 - p.size() <= oy < BOARD_HEIGHT,
{
    let m = p.matrix();
    let (r0, c0) = choose|r0: int, c0: int|
        0 <= r0 < p.size() && 0 <= c0 < p.size() && occ(m, r0, c0);
    if !cell_free(g, ox + c0, oy + r0) {
        assert(occ(m, r0, c0) && !cell_free(g, ox + c0, oy + r0));
        assert(spec_collides(g, m, ox, oy));
    }
}

/// A well-formed piece placed at its spawn origin on the all-empty board
/// never collides.
pub proof fn lemma_spawn_free_on_empty(p: &Piece)
    requires
        p.wf(),
    ensures
        !spec_collides(empty_rows(BOARD_HEIGHT as int), p.matrix(), spawn_col(p.size()), 0),
{
    let g = empty_rows(BOARD_HEIGHT as int);
    let m = p.matrix();
    let sc = spawn_col(p.size());
    assert(3 <= sc <= 4);
    assert forall|r: int, c: int|
        0 <= r < m.len() && 0 <= c < m.len() && #[trigger] occ(m, r, c) implies cell_free(
        g,
        sc + c,
        0 + r,
    ) by {
        assert(g[r] == empty_row());
        assert(g[r][sc + c] is None);
    }
}

/// The whole game state: playfield, piece supply, active piece and origin,
/// score, level, cleared-line count, and the terminal flag.
pub struct Game {
    pub board: Board,
    pub piece_bag: PieceBag,
    pub piece: Piece,
    pub piece_position: Point,
    pub score: u32,
    pub level: u32,
    pub total_lines: u32,
    pub game_over: bool,
}

impl Game {
    /// Structural well-formedness: board, bag and active piece are well
    /// formed and the piece origin stays in the band around the board.
    pub open spec fn base_wf(&self) -> bool {
        &&& self.board.wf()
        &&& self.piece_bag.wf()
        &&& self.piece.wf()
        &&& -4 <= self.piece_position.x <= BOARD_WIDTH
        &&& -4 <= self.piece_position.y <= BOARD_HEIGHT
    }

    /// While the game is running, the active piece sits collision-free at
    /// its current origin.
    pub open spec fn wf(&self) -> bool {
        &&& self.base_wf()
        &&& (!self.game_over ==> !spec_collides(
            self.board@,
            self.piece.matrix(),
            self.piece_position.x as int,
            self.piece_position.y as int,
        ))
    }
}

/// Relates the states before and after one `move_piece(dx, dy)` call.
pub open spec fn move_rel(pre: Game, post: Game, dx: int, dy: int, r: bool) -> bool {
    let nx = pre.piece_position.x + dx;
    let ny = pre.piece_position.y + dy;
    let hit = spec_collides(pre.board@, pre.piece.matrix(), nx, ny);
    &&& r == !hit
    &&& post.board == pre.board
    &&& post.piece_bag == pre.piece_bag
    &&& post.piece == pre.piece
    &&& post.score == pre.score
    &&& post.level == pre.level
    &&& post.total_lines == pre.total_lines
    &&& post.game_over == pre.game_over
    &&& post.piece_position == (if hit {
        pre.piece_position
    } else {
        Point { x: nx as i32, y: ny as i32 }
    })
}

/// Relates the states before and after one `rotate_piece(direction)` call.
pub open spec fn rotate_rel(pre: Game, post: Game, direction: Direction, r: bool) -> bool {
    let rm = if direction == Direction::Right {
        rot_right(pre.piece.matrix())
    } else {
        rot_left(pre.piece.matrix())
    };
    let hit = spec_collides(
        pre.board@,
        rm,
        pre.piece_position.x as int,
        pre.piece_position.y as int,
    );
    &&& r == !hit
    &&& post.board == pre.board
    &&& post.piece_bag == pre.piece_bag
    &&& post.piece_position == pre.piece_position
    &&& post.score == pre.score
    &&& post.level == pre.level
    &&& post.total_lines == pre.total_lines
    &&& post.game_over == pre.game_over
    &&& (if hit {
        post.piece == pre.piece
    } else {
        post.piece.matrix() == rm && post.piece.color == pre.piece.color
    })
}

/// Relates the states before and after one `place_new_piece` call.
pub open spec fn place_rel(pre: Game, post: Game, r: bool) -> bool {
    let sc = spawn_col(pre.piece.size());
    let hit = spec_collides(pre.board@, pre.piece.matrix(), sc, 0);
    &&& r == !hit
    &&& post.board == pre.board
    &&& post.piece_bag == pre.piece_bag
    &&& post.piece == pre.piece
    &&& post.score == pre.score
    &&& post.level == pre.level
    &&& post.total_lines == pre.total_lines
    &&& post.game_over == pre.game_over
    &&& post.piece_position == (if hit {
        pre.piece_position
    } else {
        Point { x: sc as i32, y: 0 }
    })
}

/// Relates the states before and after one `advance_game` call: either the
/// piece falls one row, or it locks, full rows are cleared and scored, and
/// the next piece is drawn from the bag and spawned; if the spawn collides
/// the game is over. The refilled bag is random, so only its
/// well-formedness is stated.
pub open spec fn advance_rel(pre: Game, post: Game, r: bool) -> bool {
    let px = pre.piece_position.x as int;
    let py = pre.piece_position.y as int;
    let m = pre.piece.matrix();
    if !spec_collides(pre.board@, m, px, py + 1) {
        &&& r
        &&& post.board == pre.board
        &&& post.piece_bag == pre.piece_bag
        &&& post.piece == pre.piece
        &&& post.piece_position.x == pre.piece_position.x
        &&& post.piece_position.y == py + 1
        &&& post.score == pre.score
        &&& post.level == pre.level
        &&& post.total_lines == pre.total_lines
        &&& post.game_over == pre.game_over
    } else {
        let locked = spec_locked(pre.board@, m, pre.piece.color, px, py);
        let lines = spec_lines_cleared(locked);
        let nxt = pre.piece_bag.pieces@[0];
        let sc = spawn_col(nxt.matrix().len() as int);
        let blocked = spec_collides(spec_cleared(locked), nxt.matrix(), sc, 0);
        &&& post.board@ == spec_cleared(locked)
        &&& post.score == pre.score + score_award(lines)
        &&& post.total_lines == pre.total_lines + lines
        &&& post.level == (if lines > 0 && pre.total_lines + lines >= pre.level * 10 {
            pre.level + 1
        } else {
            pre.level as int
        })
        &&& post.piece == nxt
        &&& post.piece_bag.wf()
        &&& (if blocked {
            &&& post.piece_position == pre.piece_position
            &&& post.game_over
            &&& !r
        } else {
            &&& post.piece_position == (Point { x: sc as i32, y: 0 })
            &&& !post.game_over
            &&& r
        })
    }
}

/// The game state once the active piece has fallen as far as it can.
pub open spec fn landed(pre: Game) -> Game {
    Game {
        board: pre.board,
        piece_bag: pre.piece_bag,
        piece: pre.piece,
        piece_position: Point {
            x: pre.piece_position.x,
            y: drop_y(
                pre.board@,
                pre.piece.matrix(),
                pre.piece_position.x as int,
                pre.piece_position.y as int,
            ) as i32,
        },
        score: pre.score,
        level: pre.level,
        total_lines: pre.total_lines,
        game_over: pre.game_over,
    }
}

/// Relates the states before and after one `drop_piece` call: the piece
/// falls straight to its resting row and the game then advances once.
pub open spec fn drop_rel(pre: Game, post: Game, r: bool) -> bool {
    advance_rel(landed(pre), post, r)
}

/// Clearing events award score strictly additively: over two consecutive
/// game steps the score grows by exactly the sum of the two awards.
pub proof fn lemma_score_additive(g0: Game, g1: Game, g2: Game, r1: bool, r2: bool)
    requires
        advance_rel(g0, g1, r1),
        advance_rel(g1, g2, r2),
    ensures
        g2.score == g0.score + award_of(g0) + award_of(g1),
{
}

/// The score awarded by one `advance_game` call from state `g`: zero while
/// the piece can still fall, else the award for the rows its lock clears.
pub open spec fn award_of(g: Game) -> int {
    let px = g.piece_position.x as int;
    let py = g.piece_position.y as int;
    let m = g.piece.matrix();
    if !spec_collides(g.board@, m, px, py + 1) {
        0
    } else {
        score_award(
            spec_lines_cleared(spec_locked(g.board@, m, g.piece.color, px, py)),
        )
    }
}

impl Game {
    /// A fresh game: empty board, a primed bag, the first piece drawn and
    /// spawned, and all counters at zero.
    pub fn new() -> (g: Game)
        ensures
            g.wf(),
            !g.game_over,
            g.score == 0,
            g.level == 0,
            g.total_lines == 0,
            g.board@ == empty_rows(BOARD_HEIGHT as int),
            piece_canonical(g.piece),
            g.piece_position.y == 0,
            g.piece_position.x as int == spawn_col(g.piece.size()),
    {
        let mut piece_bag = PieceBag::new();
        let piece = piece_bag.pop();
        let mut game = Game {
            board: Board::new(),
            piece_bag,
            piece,
            piece_position: Point { x: 0, y: 0 },
            level: 0,
            score: 0,
            total_lines: 0,
            game_over: false,
        };
        proof {
            lemma_spawn_free_on_empty(&game.piece);
        }
        let placed = game.place_new_piece();
        game
    }

    /// Moves the active piece by `(x, y)`. Commits the move and returns true
    /// when the destination is collision-free; otherwise leaves the state
    /// unchanged and returns false.
    pub fn move_piece(&mut self, x: i32, y: i32) -> (r: bool)
        requires
            old(self).wf(),
            !old(self).game_over,
            old(self).piece_position.x + x <= i32::MAX - 4,
            old(self).piece_position.x + x >= i32::MIN,
            old(self).piece_position.y + y <= i32::MAX - 4,
            old(self).piece_position.y + y >= i32::MIN,
        ensures
            final(self).wf(),
            move_rel(*old(self), *final(self), x as int, y as int, r),
    {
        let new_position = Point { x: self.piece_position.x + x, y: self.piece_position.y + y };
        if self.board.collision_test(&self.piece, new_position) {
            false
        } else {
            self.piece_position = new_position;
            proof {
                lemma_noncolliding_origin(
                    self.board@,
                    &self.piece,
                    new_position.x as int,
                    new_position.y as int,
                );
            }
            true
        }
    }

    /// Rotates the active piece in place. Commits the rotation and returns
    /// true when the rotated piece is collision-free at the current origin;
    /// otherwise leaves the piece unchanged and returns false. No wall-kick
    /// search is attempted.
    pub fn rotate_piece(&mut self, direction: Direction) -> (r: bool)
        requires
            old(self).wf(),
            !old(self).game_over,
        ensures
            final(self).wf(),
            rotate_rel(*old(self), *final(self), direction, r),
    {
        let mut new_piece = self.piece.clone();
        proof {
            assert(new_piece.matrix() == self.piece.matrix());
            assert(new_piece.wf());
        }
        new_piece.rotate(direction);
        if self.board.collision_test(&new_piece, self.piece_position) {
            false
        } else {
            self.piece = new_piece;
            true
        }
    }

    /// Repositions the active piece at its horizontally centred spawn origin
    /// on row zero. Returns true and commits when the spawn cell is
    /// collision-free; otherwise leaves the origin unchanged.
    pub fn place_new_piece(&mut self) -> (r: bool)
        requires
            old(self).base_wf(),
        ensures
            final(self).base_wf(),
            place_rel(*old(self), *final(self), r),
            r ==> !spec_collides(
                final(self).board@,
                final(self).piece.matrix(),
                final(self).piece_position.x as int,
                final(self).piece_position.y as int,
            ),
            r && !old(self).game_over ==> final(self).wf(),
    {
        let n: u32 = self.piece.shape.len() as u32;
        let origin = Point { x: ((BOARD_WIDTH - n) / 2) as i32, y: 0 };
        if self.board.collision_test(&self.piece, origin) {
            false
        } else {
            self.piece_position = origin;
            true
        }
    }

    /// The origin at which the active piece would come to rest if dropped:
    /// same column, the last collision-free row straight below.
    pub fn find_dropped_position(&self) -> (p: Point)
        requires
            self.wf(),
            !self.game_over,
        ensures
            p.x == self.piece_position.x,
            p.y as int == drop_y(
                self.board@,
                self.piece.matrix(),
                self.piece_position.x as int,
                self.piece_position.y as int,
            ),
            !spec_collides(self.board@, self.piece.matrix(), p.x as int, p.y as int),
            spec_collides(self.board@, self.piece.matrix(), p.x as int, p.y + 1),
    {
        let ghost g = self.board@;
        let ghost m = self.piece.matrix();
        let ghost y0 = self.piece_position.y as int;
        let x: i32 = self.piece_position.x;
        let mut y: i32 = self.piece_position.y;
        let mut stop: bool = self.board.collision_test(&self.piece, Point { x, y: y + 1 });
        while !stop
            invariant
                self.wf(),
                !self.game_over,
                g == self.board@,
                m == self.piece.matrix(),
                x == self.piece_position.x,
                y0 <= y <= BOARD_HEIGHT,
                !spec_collides(g, m, x as int, y as int),
                stop == spec_collides(g, m, x as int, y + 1),
                drop_y(g, m, x as int, y0) == drop_y(g, m, x as int, y as int),
            decreases BOARD_HEIGHT - y,
        {
            y = y + 1;
            proof {
                lemma_noncolliding_origin(g, &self.piece, x as int, y as int);
            }
            stop = self.board.collision_test(&self.piece, Point { x, y: y + 1 });
        }
        proof {
            lemma_noncolliding_origin(g, &self.piece, x as int, y as int);
        }
        Point { x, y }
    }

    /// True when the game is already over, or when the next piece waiting in
    /// the bag could not be spawned on the current board.
    pub fn game_over_condition(&self) -> (r: bool)
        requires
            self.base_wf(),
        ensures
            r == (self.game_over || spec_collides(
                self.board@,
                self.piece_bag.pieces@[0].matrix(),
                spawn_col(self.piece_bag.pieces@[0].matrix().len() as int),
                0,
            )),
    {
        if self.game_over {
            return true;
        }
        let new_piece = self.piece_bag.peek();
        let origin = Point {
            x: ((BOARD_WIDTH - (new_piece.shape.len() as u32)) / 2) as i32,
            y: 0,
        };
        if self.board.collision_test(&new_piece, origin) {
            return true;
        }
        false
    }

    /// The gravity step. If the piece can fall it falls one row. Otherwise
    /// it locks, full rows are cleared and scored by the fixed table
    /// 1, 2, 3, 4 lines giving 40, 100, 300, 1200 points, the level rises at
    /// each multiple-of-ten line threshold, and the next piece is drawn and
    /// spawned. Returns false exactly when the new piece cannot spawn and
    /// the game becomes over.
    pub fn advance_game(&mut self) -> (r: bool)
        requires
            old(self).wf(),
            !old(self).game_over,
            old(self).score + 1200 <= u32::MAX,
            old(self).total_lines + 20 <= u32::MAX,
            old(self).level * 10 + 10 <= u32::MAX,
        ensures
            final(self).wf(),
            advance_rel(*old(self), *final(self), r),
    {
        if !self.move_piece(0, 1) {
            let pos = self.piece_position;
            self.board.lock_piece(&self.piece, pos);
            proof {
                lemma_kept_upto_len(self.board@, BOARD_HEIGHT as int);
            }
            let lines_cleared: u32 = self.board.clear_lines();
            if lines_cleared > 0 {
                let award: u32 = if lines_cleared == 1 {
                    40
                } else if lines_cleared == 2 {
                    100
                } else if lines_cleared == 3 {
                    300
                } else if lines_cleared == 4 {
                    1200
                } else {
                    0
                };
                self.score = self.score + award;
                self.total_lines = self.total_lines + lines_cleared;
                if lines_cleared > 0 && self.total_lines >= self.level * 10 {
                    self.level = self.level + 1;
                }
            }
            let nxt = self.piece_bag.pop();
            self.piece = nxt;
            if !self.place_new_piece() {
                self.game_over = true;
                return false;
            }
        }
        true
    }

    /// Drops the active piece straight to its resting row, then advances the
    /// game once, which locks it and spawns the next piece.
    pub fn drop_piece(&mut self) -> (r: bool)
        requires
            old(self).wf(),
            !old(self).game_over,
            old(self).score + 1200 <= u32::MAX,
            old(self).total_lines + 20 <= u32::MAX,
            old(self).level * 10 + 10 <= u32::MAX,
        ensures
            final(self).wf(),
            drop_rel(*old(self), *final(self), r),
    {
        let ghost g = self.board@;
        let ghost m = self.piece.matrix();
        let ghost y0 = self.piece_position.y as int;
        let ghost x0 = self.piece_position.x as int;
        let mut moved: bool = self.move_piece(0, 1);
        proof {
            if moved {
                assert(drop_y(g, m, x0, y0) == drop_y(g, m, x0, y0 + 1));
            }
        }
        while moved
            invariant
                self.wf(),
                !self.game_over,
                self.board == old(self).board,
                self.piece_bag == old(self).piece_bag,
                self.piece == old(self).piece,
                self.score == old(self).score,
                self.level == old(self).level,
                self.total_lines == old(self).total_lines,
                self.piece_position.x == old(self).piece_position.x,
                g == self.board@,
                m == self.piece.matrix(),
                x0 == old(self).piece_position.x as int,
                y0 == old(self).piece_position.y as int,
                y0 <= self.piece_position.y <= BOARD_HEIGHT,
                old(self).score + 1200 <= u32::MAX,
                old(self).total_lines + 20 <= u32::MAX,
                old(self).level * 10 + 10 <= u32::MAX,
                !moved ==> spec_collides(g, m, x0, self.piece_position.y + 1),
                drop_y(g, m, x0, y0) == drop_y(g, m, x0, self.piece_position.y as int),
            decreases BOARD_HEIGHT - self.piece_position.y + (if moved { 1int } else { 0int }),
        {
            let ghost yprev = self.piece_position.y as int;
            proof {
                lemma_noncolliding_origin(g, &self.piece, x0, yprev);
            }
            moved = self.move_piece(0, 1);
            proof {
                if moved {
                    assert(drop_y(g, m, x0, yprev) == drop_y(g, m, x0, yprev + 1));
                }
            }
        }
        proof {
            lemma_noncolliding_origin(g, &self.piece, x0, self.piece_position.y as int);
            assert(drop_y(g, m, x0, self.piece_position.y as int) == self.piece_position.y as int);
        }
        proof {
            assert(*self == landed(*old(self)));
        }
        self.advance_game()
    }

    /// Dispatches one key: left and right move, up and the letter q rotate
    /// counter-clockwise, e rotates clockwise, down advances, space drops.
    /// Every other key leaves the state unchanged.
    pub fn keypress(&mut self, key: Key)
        requires
            old(self).wf(),
            !old(self).game_over,
            old(self).score + 1200 <= u32::MAX,
            old(self).total_lines + 20 <= u32::MAX,
            old(self).level * 10 + 10 <= u32::MAX,
        ensures
            final(self).wf(),
            key == Key::Left ==> exists|r: bool| #[trigger] move_rel(
                *old(self),
                *final(self),
                -1,
                0,
                r,
            ),
            key == Key::Right ==> exists|r: bool| #[trigger] move_rel(
                *old(self),
                *final(self),
                1,
                0,
                r,
            ),
            key == Key::Down ==> exists|r: bool| #[trigger] advance_rel(
                *old(self),
                *final(self),
                r,
            ),
            key == Key::Up || key == Key::Char('q') ==> exists|r: bool| #[trigger] rotate_rel(
                *old(self),
                *final(self),
                Direction::Left,
                r,
            ),
            key == Key::Char('e') ==> exists|r: bool| #[trigger] rotate_rel(
                *old(self),
                *final(self),
                Direction::Right,
                r,
            ),
            key == Key::Space ==> exists|r: bool| #[trigger] drop_rel(*old(self), *final(self), r),
            (key != Key::Left && key != Key::Right && key != Key::Down && key != Key::Up && key
                != Key::Space && key != Key::Char('q') && key != Key::Char('e')) ==> *final(self)
                == *old(self),
    {
        match key {
            Key::Left => {
                let r = self.move_piece(-1, 0);
                proof {
                    assert(move_rel(*old(self), *self, -1, 0, r));
                }
            },
            Key::Right => {
                let r = self.move_piece(1, 0);
                proof {
                    assert(move_rel(*old(self), *self, 1, 0, r));
                }
            },
            Key::Down => {
                let r = self.advance_game();
                proof {
                    assert(advance_rel(*old(self), *self, r));
                }
            },
            Key::Up => {
                let r = self.rotate_piece(Direction::Left);
                proof {
                    assert(rotate_rel(*old(self), *self, Direction::Left, r));
                }
            },
            Key::Space => {
                let r = self.drop_piece();
                proof {
                    assert(drop_rel(*old(self), *self, r));
                }
            },
            Key::Char(c) => {
                if c == 'q' {
                    let r = self.rotate_piece(Direction::Left);
                    proof {
                        assert(rotate_rel(*old(self), *self, Direction::Left, r));
                    }
                } else if c == 'e' {
                    let r = self.rotate_piece(Direction::Right);
                    proof {
                        assert(rotate_rel(*old(self), *self, Direction::Right, r));
                    }
                }
            },
            _ => {},
        }
    }
}

/// One event consumed by the game loop: a decoded key or a timer tick.
#[derive(Clone, Copy, PartialEq, Eq, Structural, Debug)]
pub enum GameUpdate {
    KeyPress(Key),
    Tick,
}

/// What the game loop does with one event.
#[derive(Clone, Copy, PartialEq, Eq, Structural, Debug)]
pub enum LoopAction {
    Quit,
    Restart,
    Forward(Key),
    Advance,
    Ignore,
}

/// The routing of one event: control-C or the letter z quits; once the game
/// is over only the letter r acts, and restarts; otherwise a key is handed
/// to `keypress` and a tick to `advance_game`.
pub open spec fn spec_route_event(game_over: bool, update: GameUpdate) -> LoopAction {
    match update {
        GameUpdate::KeyPress(k) => if k == Key::CtrlC || k == Key::Char('z') {
            LoopAction::Quit
        } else if game_over {
            if k == Key::Char('r') {
                LoopAction::Restart
            } else {
                LoopAction::Ignore
            }
        } else {
            LoopAction::Forward(k)
        },
        GameUpdate::Tick => if game_over {
            LoopAction::Ignore
        } else {
            LoopAction::Advance
        },
    }
}

/// Decides what the game loop does with one event; the loop itself only
/// performs the action.
pub fn route_event(game_over: bool, update: GameUpdate) -> (a: LoopAction)
    ensures
        a == spec_route_event(game_over, update),
{
    match update {
        GameUpdate::KeyPress(k) => {
            if k == Key::CtrlC {
                LoopAction::Quit
            } else {
                let quit_letter: bool = match k {
                    Key::Char(c) => c == 'z',
                    _ => false,
                };
                if quit_letter {
                    LoopAction::Quit
                } else if game_over {
                    let restart_letter: bool = match k {
                        Key::Char(c) => c == 'r',
                        _ => false,
                    };
                    if restart_letter {
                        LoopAction::Restart
                    } else {
                        LoopAction::Ignore
                    }
                } else {
                    LoopAction::Forward(k)
                }
            }
        },
        GameUpdate::Tick => {
            if game_over {
                LoopAction::Ignore
            } else {
                LoopAction::Advance
            }
        },
    }
}

} // verus!
