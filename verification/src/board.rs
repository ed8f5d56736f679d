use vstd::prelude::*;
use crate::Color;
use crate::Point;
use crate::BOARD_HEIGHT;
use crate::BOARD_WIDTH;
use crate::piece::occ;
use crate::piece::raster_pts;
use crate::piece::lemma_raster_sound;
use crate::piece::lemma_raster_complete;
use crate::piece::Piece;

verus! {

/// The sequence of row views of a vector of rows.
pub open spec fn rows_view(cells: Vec<Vec<Option<Color>>>) -> Seq<Seq<Option<Color>>> {
    cells@.map_values(|r: Vec<Option<Color>>| r@)
}

/// A grid is well formed when it has exactly `BOARD_HEIGHT` rows of
/// exactly `BOARD_WIDTH` cells each.
pub open spec fn grid_wf(g: Seq<Seq<Option<Color>>>) -> bool {
    &&& g.len() == BOARD_HEIGHT
    &&& forall|y: int| 0 <= y < g.len() ==> (#[trigger] g[y]).len() == BOARD_WIDTH
}

/// The coordinate lies on the board.
pub open spec fn in_bounds(x: int, y: int) -> bool {
    0 <= x < BOARD_WIDTH && 0 <= y < BOARD_HEIGHT
}

/// The cell is on the board and empty.
pub open spec fn cell_free(g: Seq<Seq<Option<Color>>>, x: int, y: int) -> bool {
    in_bounds(x, y) && g[y][x] is None
}

/// A piece with occupancy matrix `m` collides at origin `(ox, oy)` when at
/// least one of its occupied offsets maps outside the board or onto an
/// occupied cell.
pub open spec fn spec_collides(
    g: Seq<Seq<Option<Color>>>,
    m: Seq<Seq<u8>>,
    ox: int,
    oy: int,
) -> bool {
    exists|r: int, c: int|
        0 <= r < m.len() && 0 <= c < m.len() && #[trigger] occ(m, r, c)
            && !cell_free(g, ox + c, oy + r)
}

/// The grid after writing `color` into every cell covered by an occupied
/// offset of `m` placed at origin `(ox, oy)`.
pub open spec fn spec_locked(
    g: Seq<Seq<Option<Color>>>,
    m: Seq<Seq<u8>>,
    color: Color,
    ox: int,
    oy: int,
) -> Seq<Seq<Option<Color>>> {
    Seq::new(
        g.len(),
        |y: int|
            Seq::new(
                g[y].len(),
                |x: int|
                    if 0 <= y - oy < m.len() && 0 <= x - ox < m.len() && occ(m, y - oy, x - ox) {
                        Some(color)
                    } else {
                        g[y][x]
                    },
            ),
    )
}

/// Every cell of the row is occupied.
pub open spec fn full_row(row: Seq<Option<Color>>) -> bool {
    forall|x: int| 0 <= x < row.len() ==> (#[trigger] row[x]) is Some
}

/// The rows among the first `i` of `g` that are not full, in order.
pub open spec fn kept_upto(g: Seq<Seq<Option<Color>>>, i: int) -> Seq<Seq<Option<Color>>>
    decreases i,
{
    if i <= 0 {
        Seq::empty()
    } else {
        kept_upto(g, i - 1) + (if full_row(g[i - 1]) {
            Seq::empty()
        } else {
            seq![g[i - 1]]
        })
    }
}

/// A row of `BOARD_WIDTH` empty cells.
pub open spec fn empty_row() -> Seq<Option<Color>> {
    Seq::new(BOARD_WIDTH as nat, |x: int| None::<Color>)
}

/// `k` empty rows.
pub open spec fn empty_rows(k: int) -> Seq<Seq<Option<Color>>> {
    Seq::new(if k < 0 { 0 } else { k as nat }, |i: int| empty_row())
}

/// The number of full rows in `g`.
pub open spec fn spec_lines_cleared(g: Seq<Seq<Option<Color>>>) -> int {
    g.len() - kept_upto(g, g.len() as int).len()
}

/// The grid after a clearing pass: the rows that are not full keep their
/// order and sink to the bottom, and as many empty rows enter at the top.
pub open spec fn spec_cleared(g: Seq<Seq<Option<Color>>>) -> Seq<Seq<Option<Color>>> {
    empty_rows(spec_lines_cleared(g)) + kept_upto(g, g.len() as int)
}

pub proof fn lemma_kept_upto_len(g: Seq<Seq<Option<Color>>>, i: int)
    ensures
        kept_upto(g, i).len() <= (if i < 0 { 0int } else { i }),
    decreases i,
{
    if i > 0 {
        lemma_kept_upto_len(g, i - 1);
    }
}

pub proof fn lemma_kept_upto_rows(g: Seq<Seq<Option<Color>>>, i: int)
    requires
        grid_wf(g),
        i <= g.len(),
    ensures
        forall|j: int| 0 <= j < kept_upto(g, i).len() ==> (#[trigger] kept_upto(g, i)[j]).len()
            == BOARD_WIDTH,
    decreases i,
{
    if i > 0 {
        lemma_kept_upto_rows(g, i - 1);
        let s = kept_upto(g, i);
        let s0 = kept_upto(g, i - 1);
        assert forall|j: int| 0 <= j < s.len() implies (#[trigger] s[j]).len() == BOARD_WIDTH by {
            if j < s0.len() {
                assert(s[j] == s0[j]);
            } else {
                assert(s[j] == g[i - 1]);
            }
        }
    }
}

/// The playfield: a fixed grid of cells, each empty or holding a colour.
pub struct Board {
    pub cells: Vec<Vec<Option<Color>>>,
}

impl View for Board {
    type V = Seq<Seq<Option<Color>>>;

    open spec fn view(&self) -> Seq<Seq<Option<Color>>> {
        rows_view(self.cells)
    }
}

fn clone_row(row: &Vec<Option<Color>>) -> (out: Vec<Option<Color>>)
    ensures
        out@ == row@,
{
    let mut out: Vec<Option<Color>> = Vec::new();
    let mut j: usize = 0;
    while j < row.len()
        invariant
            j <= row@.len(),
            out@.len() == j as int,
            forall|k: int| 0 <= k < j ==> #[trigger] out@[k] == row@[k],
        decreases row@.len() - j,
    {
        out.push(row[j]);
        j = j + 1;
    }
    proof {
        assert(out@ =~= row@);
    }
    out
}

fn new_empty_row() -> (out: Vec<Option<Color>>)
    ensures
        out@ == empty_row(),
{
    let mut out: Vec<Option<Color>> = Vec::new();
    let mut j: usize = 0;
    while j < BOARD_WIDTH as usize
        invariant
            j <= BOARD_WIDTH,
            out@.len() == j as int,
            forall|k: int| 0 <= k < j ==> #[trigger] out@[k] is None,
        decreases BOARD_WIDTH - j,
    {
        out.push(None);
        j = j + 1;
    }
    proof {
        assert(out@ =~= empty_row());
    }
    out
}

impl Board {
    pub open spec fn wf(&self) -> bool {
        grid_wf(self@)
    }

    /// A board whose cells are all empty.
    pub fn new() -> (b: Board)
        ensures
            b.wf(),
            b@ == empty_rows(BOARD_HEIGHT as int),
    {
        let mut cells: Vec<Vec<Option<Color>>> = Vec::new();
        let mut y: usize = 0;
        while y < BOARD_HEIGHT as usize
            invariant
                y <= BOARD_HEIGHT,
                cells@.len() == y as int,
                forall|k: int| 0 <= k < y ==> (#[trigger] cells@[k])@ == empty_row(),
            decreases BOARD_HEIGHT - y,
        {
            cells.push(new_empty_row());
            y = y + 1;
        }
        let b = Board { cells };
        proof {
            assert(b@ =~~= empty_rows(BOARD_HEIGHT as int));
        }
        b
    }

    /// Reports whether placing `piece` at `origin` collides: true iff some
    /// occupied offset of the piece maps outside the board or onto an
    /// occupied cell. Read-only; the single source of truth for placement.
    pub fn collision_test(&self, piece: &Piece, origin: Point) -> (r: bool)
        requires
            self.wf(),
            piece.wf(),
            origin.x <= i32::MAX - 4,
            origin.y <= i32::MAX - 4,
        ensures
            r == spec_collides(self@, piece.matrix(), origin.x as int, origin.y as int),
    {
        let ghost g = self@;
        let ghost m = piece.matrix();
        let ghost ox = origin.x as int;
        let ghost oy = origin.y as int;
        proof {
            lemma_raster_sound(m);
        }
        let pts = piece.each_point();
        let mut found = false;
        let mut i: usize = 0;
        while i < pts.len()
            invariant
                self.wf(),
                g == self@,
                m == piece.matrix(),
                ox == origin.x as int,
                oy == origin.y as int,
                origin.x <= i32::MAX - 4,
                origin.y <= i32::MAX - 4,
                piece.wf(),
                pts@ == raster_pts(m),
                forall|j: int| 0 <= j < pts@.len() ==> {
                    let p = #[trigger] pts@[j];
                    0 <= p.y < m.len() && 0 <= p.x < m.len() && occ(m, p.y as int, p.x as int)
                },
                i <= pts@.len(),
                found == exists|j: int| 0 <= j < i && !cell_free(
                    g,
                    ox + (#[trigger] pts@[j]).x,
                    oy + pts@[j].y,
                ),
            decreases pts@.len() - i,
        {
            let p = pts[i];
            let x: i32 = origin.x + p.x;
            let y: i32 = origin.y + p.y;
            let blocked: bool = if x < 0 || x >= BOARD_WIDTH as i32 || y < 0 || y >= BOARD_HEIGHT as i32 {
                true
            } else {
                proof {
                    assert(self.cells@.len() == BOARD_HEIGHT as int);
                    assert(self@[y as int] == self.cells@[y as int]@);
                }
                self.cells[y as usize][x as usize].is_some()
            };
            proof {
                assert(blocked == !cell_free(g, ox + p.x, oy + p.y));
            }
            found = found || blocked;
            i = i + 1;
        }
        proof {
            if found {
                let j = choose|j: int| 0 <= j < pts@.len() && !cell_free(
                    g,
                    ox + (#[trigger] pts@[j]).x,
                    oy + pts@[j].y,
                );
                let p = pts@[j];
                assert(occ(m, p.y as int, p.x as int) && !cell_free(g, ox + p.x, oy + p.y));
                assert(spec_collides(g, m, ox, oy));
            } else {
                assert forall|r: int, c: int|
                    0 <= r < m.len() && 0 <= c < m.len() && #[trigger] occ(m, r, c) implies cell_free(
                    g,
                    ox + c,
                    oy + r,
                ) by {
                    lemma_raster_complete(m, r, c);
                    let p = Point { x: c as i32, y: r as i32 };
                    let j = choose|j: int| 0 <= j < pts@.len() && #[trigger] pts@[j] == p;
                    assert(cell_free(g, ox + pts@[j].x, oy + pts@[j].y));
                }
            }
        }
        found
    }

    /// Writes the piece's colour into every covered cell. The caller must
    /// already have checked that the placement does not collide.
    pub fn lock_piece(&mut self, piece: &Piece, origin: Point)
        requires
            old(self).wf(),
            piece.wf(),
            -4 <= origin.x <= i32::MAX - 4,
            -4 <= origin.y <= i32::MAX - 4,
            !spec_collides(old(self)@, piece.matrix(), origin.x as int, origin.y as int),
        ensures
            final(self).wf(),
            final(self)@ == spec_locked(
                old(self)@,
                piece.matrix(),
                piece.color,
                origin.x as int,
                origin.y as int,
            ),
    {
        let ghost g = old(self)@;
        let ghost m = piece.matrix();
        let ghost ox = origin.x as int;
        let ghost oy = origin.y as int;
        proof {
            lemma_raster_sound(m);
        }
        let pts = piece.each_point();
        let mut i: usize = 0;
        while i < pts.len()
            invariant
                self.wf(),
                grid_wf(g),
                m == piece.matrix(),
                piece.wf(),
                ox == origin.x as int,
                oy == origin.y as int,
                -4 <= origin.x <= i32::MAX - 4,
                -4 <= origin.y <= i32::MAX - 4,
                !spec_collides(g, m, ox, oy),
                pts@ == raster_pts(m),
                forall|j: int| 0 <= j < pts@.len() ==> {
                    let p = #[trigger] pts@[j];
                    0 <= p.y < m.len() && 0 <= p.x < m.len() && occ(m, p.y as int, p.x as int)
                },
                i <= pts@.len(),
                forall|y: int, x: int| in_bounds(x, y) ==> #[trigger] self@[y][x] == (
                    if exists|j: int| 0 <= j < i && oy + (#[trigger] pts@[j]).y == y && ox
                        + pts@[j].x == x {
                        Some(piece.color)
                    } else {
                        g[y][x]
                    }),
            decreases pts@.len() - i,
        {
            let p = pts[i];
            proof {
                if !cell_free(g, ox + p.x, oy + p.y) {
                    assert(occ(m, p.y as int, p.x as int));
                    assert(spec_collides(g, m, ox, oy));
                }
                assert(cell_free(g, ox + p.x, oy + p.y));
            }
            let x: i32 = origin.x + p.x;
            let y: i32 = origin.y + p.y;
            let ghost prev = self@;
            proof {
                assert(self.cells@.len() == BOARD_HEIGHT as int);
                assert(self@[y as int] == self.cells@[y as int]@);
                assert(self.cells@[y as int]@.len() == BOARD_WIDTH as int);
            }
            self.cells[y as usize][x as usize] = Some(piece.color);
            i = i + 1;
            proof {
                assert forall|yy: int| 0 <= yy < self@.len() implies (#[trigger] self@[yy]).len()
                    == BOARD_WIDTH by {
                    assert(self@[yy] == self.cells@[yy]@);
                    if yy != y as int {
                        assert(self@[yy] == prev[yy]);
                    }
                }
                assert(self.wf());
            }
            proof {
                assert forall|yy: int, xx: int| in_bounds(xx, yy) implies #[trigger] self@[yy][xx]
                    == (if exists|j: int| 0 <= j < i && oy + (#[trigger] pts@[j]).y == yy && ox
                        + pts@[j].x == xx {
                        Some(piece.color)
                    } else {
                        g[yy][xx]
                    }) by {
                    if yy == y as int && xx == x as int {
                        assert(oy + pts@[i - 1].y == yy && ox + pts@[i - 1].x == xx);
                        assert(self@[yy][xx] == Some(piece.color));
                    } else {
                        assert(self@[yy][xx] == prev[yy][xx]);
                        assert forall|j: int| 0 <= j < i && oy + (#[trigger] pts@[j]).y == yy && ox
                            + pts@[j].x == xx implies j < i - 1 by {}
                    }
                }
            }
        }
        proof {
            let locked = spec_locked(g, m, piece.color, ox, oy);
            assert forall|y: int| 0 <= y < BOARD_HEIGHT as int implies self@[y] =~= locked[y] by {
                assert forall|x: int| 0 <= x < BOARD_WIDTH as int implies self@[y][x] == locked[y][x] by {
                    if 0 <= y - oy < m.len() && 0 <= x - ox < m.len() && occ(m, y - oy, x - ox) {
                        lemma_raster_complete(m, y - oy, x - ox);
                        let p = Point { x: (x - ox) as i32, y: (y - oy) as i32 };
                        let j = choose|j: int| 0 <= j < pts@.len() && #[trigger] pts@[j] == p;
                        assert(oy + pts@[j].y == y && ox + pts@[j].x == x);
                    } else {
                        if exists|j: int| 0 <= j < pts@.len() && oy + (#[trigger] pts@[j]).y == y
                            && ox + pts@[j].x == x {
                            let j = choose|j: int| 0 <= j < pts@.len() && oy
                                + (#[trigger] pts@[j]).y == y && ox + pts@[j].x == x;
                            assert(occ(m, y - oy, x - ox));
                        }
                    }
                }
            }
            assert(self@ =~~= locked);
        }
    }

    /// Clears every full row; the surviving rows sink to the bottom, keeping
    /// their order, and empty rows enter at the top. Returns the number of
    /// rows cleared.
    pub fn clear_lines(&mut self) -> (n: u32)
        requires
            old(self).wf(),
        ensures
            final(self).wf(),
            final(self)@ == spec_cleared(old(self)@),
            n as int == spec_lines_cleared(old(self)@),
    {
        let ghost g = old(self)@;
        let mut kept: Vec<Vec<Option<Color>>> = Vec::new();
        let mut y: usize = 0;
        while y < BOARD_HEIGHT as usize
            invariant
                self.wf(),
                g == self@,
                y <= BOARD_HEIGHT,
                rows_view(kept) == kept_upto(g, y as int),
            decreases BOARD_HEIGHT - y,
        {
            let mut full: bool = true;
            let mut x: usize = 0;
            while x < BOARD_WIDTH as usize
                invariant
                    self.wf(),
                    g == self@,
                    y < BOARD_HEIGHT,
                    x <= BOARD_WIDTH,
                    full == (forall|k: int| 0 <= k < x ==> (#[trigger] g[y as int][k]) is Some),
                decreases BOARD_WIDTH - x,
            {
                if self.cells[y][x].is_none() {
                    full = false;
                }
                x = x + 1;
            }
            proof {
                assert(full == full_row(g[y as int]));
            }
            if !full {
                let krow = clone_row(&self.cells[y]);
                kept.push(krow);
            }
            y = y + 1;
            proof {
                assert(kept_upto(g, y as int) == kept_upto(g, y - 1) + (if full_row(g[y - 1]) {
                    Seq::<Seq<Option<Color>>>::empty()
                } else {
                    seq![g[y - 1]]
                }));
                assert(rows_view(kept) =~= kept_upto(g, y as int));
            }
        }
        proof {
            lemma_kept_upto_len(g, BOARD_HEIGHT as int);
        }
        let cleared: usize = BOARD_HEIGHT as usize - kept.len();
        let mut ncells: Vec<Vec<Option<Color>>> = Vec::new();
        let mut k: usize = 0;
        while k < cleared
            invariant
                k <= cleared,
                ncells@.len() == k as int,
                forall|j: int| 0 <= j < k ==> (#[trigger] ncells@[j])@ == empty_row(),
            decreases cleared - k,
        {
            ncells.push(new_empty_row());
            k = k + 1;
        }
        let ghost empties = rows_view(ncells);
        ncells.append(&mut kept);
        self.cells = ncells;
        proof {
            assert(empties =~= empty_rows(cleared as int));
            assert(self@ =~~= empties + kept_upto(g, BOARD_HEIGHT as int));
            assert(self@ =~~= spec_cleared(g));
            lemma_kept_upto_rows(g, BOARD_HEIGHT as int);
            assert forall|yy: int| 0 <= yy < self@.len() implies (#[trigger] self@[yy]).len()
                == BOARD_WIDTH as int by {
                if yy < cleared as int {
                    assert(self@[yy] == empty_rows(cleared as int)[yy]);
                    assert(self@[yy] == empty_row());
                } else {
                    assert(self@[yy] == kept_upto(g, BOARD_HEIGHT as int)[yy - cleared]);
                }
            }
        }
        cleared as u32
    }
}

} // verus!
