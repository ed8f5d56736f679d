use vstd::prelude::*;
use crate::Color;
use crate::Direction;
use crate::Point;

verus! {

/// A cell of an occupancy matrix counts as occupied when it is non-zero.
pub open spec fn occ(m: Seq<Seq<u8>>, r: int, c: int) -> bool {
    m[r][c] != 0
}

/// Every row of the matrix is as long as the matrix is tall.
pub open spec fn is_square(m: Seq<Seq<u8>>) -> bool {
    forall|i: int| 0 <= i < m.len() ==> (#[trigger] m[i]).len() == m.len()
}

/// The matrix after a quarter turn clockwise.
pub open spec fn rot_right(m: Seq<Seq<u8>>) -> Seq<Seq<u8>> {
    Seq::new(m.len(), |r: int| Seq::new(m.len(), |c: int| m[m.len() - 1 - c][r]))
}

/// The matrix after a quarter turn counter-clockwise.
pub open spec fn rot_left(m: Seq<Seq<u8>>) -> Seq<Seq<u8>> {
    Seq::new(m.len(), |r: int| Seq::new(m.len(), |c: int| m[c][m.len() - 1 - r]))
}

pub proof fn lemma_rot_right_idx(m: Seq<Seq<u8>>, r: int, c: int)
    requires
        0 <= r < m.len(),
        0 <= c < m.len(),
    ensures
        rot_right(m).len() == m.len(),
        rot_right(m)[r].len() == m.len(),
        rot_right(m)[r][c] == m[m.len() - 1 - c][r],
{
}

pub proof fn lemma_rot_left_idx(m: Seq<Seq<u8>>, r: int, c: int)
    requires
        0 <= r < m.len(),
        0 <= c < m.len(),
    ensures
        rot_left(m).len() == m.len(),
        rot_left(m)[r].len() == m.len(),
        rot_left(m)[r][c] == m[c][m.len() - 1 - r],
{
}

/// Rotating a square matrix four times in the same direction restores it.
pub proof fn lemma_rotate_four(m: Seq<Seq<u8>>)
    requires
        is_square(m),
    ensures
        rot_right(rot_right(rot_right(rot_right(m)))) == m,
        rot_left(rot_left(rot_left(rot_left(m)))) == m,
{
    let n = m.len() as int;
    let r1 = rot_right(m);
    let r2 = rot_right(r1);
    let r3 = rot_right(r2);
    let r4 = rot_right(r3);
    assert forall|r: int, c: int| 0 <= r < n && 0 <= c < n implies r4[r][c] == m[r][c] by {
        lemma_rot_right_idx(m, n - 1 - c, r);
        lemma_rot_right_idx(r1, n - 1 - r, n - 1 - c);
        lemma_rot_right_idx(r2, c, n - 1 - r);
        lemma_rot_right_idx(r3, r, c);
    }
    assert(r4 =~~= m);
    let l1 = rot_left(m);
    let l2 = rot_left(l1);
    let l3 = rot_left(l2);
    let l4 = rot_left(l3);
    assert forall|r: int, c: int| 0 <= r < n && 0 <= c < n implies l4[r][c] == m[r][c] by {
        lemma_rot_left_idx(m, c, n - 1 - r);
        lemma_rot_left_idx(l1, n - 1 - r, n - 1 - c);
        lemma_rot_left_idx(l2, n - 1 - c, r);
        lemma_rot_left_idx(l3, r, c);
    }
    assert(l4 =~~= m);
}

/// The occupied offsets of row `r` whose column lies below `c`, in column order.
pub open spec fn pts_row(m: Seq<Seq<u8>>, r: int, c: int) -> Seq<Point>
    decreases c,
{
    if c <= 0 {
        Seq::empty()
    } else {
        pts_row(m, r, c - 1) + (if occ(m, r, c - 1) {
            seq![(Point { x: (c - 1) as i32, y: r as i32 })]
        } else {
            Seq::empty()
        })
    }
}

/// The occupied offsets of the rows below `r`, in raster order.
pub open spec fn pts_upto(m: Seq<Seq<u8>>, r: int) -> Seq<Point>
    decreases r,
{
    if r <= 0 {
        Seq::empty()
    } else {
        pts_upto(m, r - 1) + pts_row(m, r - 1, m.len() as int)
    }
}

/// All occupied offsets of the matrix in raster order: row-major,
/// top to bottom, left to right. `x` is the column, `y` the row.
pub open spec fn raster_pts(m: Seq<Seq<u8>>) -> Seq<Point> {
    pts_upto(m, m.len() as int)
}

proof fn lemma_pts_row_sound(m: Seq<Seq<u8>>, r: int, c: int)
    requires
        0 <= r <= i32::MAX,
        c <= i32::MAX,
    ensures
        forall|i: int| 0 <= i < pts_row(m, r, c).len() ==> {
            let p = #[trigger] pts_row(m, r, c)[i];
            p.y == r && 0 <= p.x < c && occ(m, r, p.x as int)
        },
    decreases c,
{
    if c > 0 {
        lemma_pts_row_sound(m, r, c - 1);
        let s = pts_row(m, r, c);
        let s0 = pts_row(m, r, c - 1);
        assert forall|i: int| 0 <= i < s.len() implies {
            let p = #[trigger] s[i];
            p.y == r && 0 <= p.x < c && occ(m, r, p.x as int)
        } by {
            if i < s0.len() {
                assert(s[i] == s0[i]);
            } else {
                assert(s[i] == (Point { x: (c - 1) as i32, y: r as i32 }));
            }
        }
    }
}

proof fn lemma_pts_upto_sound(m: Seq<Seq<u8>>, r: int)
    requires
        r <= i32::MAX,
        m.len() <= i32::MAX,
    ensures
        forall|i: int| 0 <= i < pts_upto(m, r).len() ==> {
            let p = #[trigger] pts_upto(m, r)[i];
            0 <= p.y < r && 0 <= p.x < m.len() && occ(m, p.y as int, p.x as int)
        },
    decreases r,
{
    if r > 0 {
        lemma_pts_upto_sound(m, r - 1);
        lemma_pts_row_sound(m, r - 1, m.len() as int);
        let s = pts_upto(m, r);
        let s0 = pts_upto(m, r - 1);
        let sr = pts_row(m, r - 1, m.len() as int);
        assert forall|i: int| 0 <= i < s.len() implies {
            let p = #[trigger] s[i];
            0 <= p.y < r && 0 <= p.x < m.len() && occ(m, p.y as int, p.x as int)
        } by {
            if i < s0.len() {
                assert(s[i] == s0[i]);
            } else {
                assert(s[i] == sr[i - s0.len()]);
            }
        }
    }
}

/// Every point in the raster enumeration is an occupied in-range offset.
pub proof fn lemma_raster_sound(m: Seq<Seq<u8>>)
    requires
        m.len() <= i32::MAX,
    ensures
        forall|i: int| 0 <= i < raster_pts(m).len() ==> {
            let p = #[trigger] raster_pts(m)[i];
            0 <= p.y < m.len() && 0 <= p.x < m.len() && occ(m, p.y as int, p.x as int)
        },
{
    lemma_pts_upto_sound(m, m.len() as int);
}

proof fn lemma_pts_row_complete(m: Seq<Seq<u8>>, r: int, c: int, j: int)
    requires
        0 <= j < c,
        occ(m, r, j),
    ensures
        pts_row(m, r, c).contains(Point { x: j as i32, y: r as i32 }),
    decreases c,
{
    if j == c - 1 {
        let s = pts_row(m, r, c);
        assert(s[s.len() - 1] == (Point { x: j as i32, y: r as i32 }));
    } else {
        lemma_pts_row_complete(m, r, c - 1, j);
        let p = Point { x: j as i32, y: r as i32 };
        let i = choose|i: int| 0 <= i < pts_row(m, r, c - 1).len() && #[trigger] pts_row(m, r, c - 1)[i] == p;
        assert(pts_row(m, r, c)[i] == p);
    }
}

proof fn lemma_pts_upto_complete(m: Seq<Seq<u8>>, r: int, rr: int, j: int)
    requires
        0 <= rr < r,
        0 <= j < m.len(),
        occ(m, rr, j),
    ensures
        pts_upto(m, r).contains(Point { x: j as i32, y: rr as i32 }),
    decreases r,
{
    let p = Point { x: j as i32, y: rr as i32 };
    if rr == r - 1 {
        lemma_pts_row_complete(m, rr, m.len() as int, j);
        let i = choose|i: int| 0 <= i < pts_row(m, rr, m.len() as int).len()
            && #[trigger] pts_row(m, rr, m.len() as int)[i] == p;
        assert(pts_upto(m, r)[pts_upto(m, r - 1).len() + i] == p);
    } else {
        lemma_pts_upto_complete(m, r - 1, rr, j);
        let i = choose|i: int| 0 <= i < pts_upto(m, r - 1).len() && #[trigger] pts_upto(m, r - 1)[i] == p;
        assert(pts_upto(m, r)[i] == p);
    }
}

/// Every occupied in-range offset appears in the raster enumeration.
pub proof fn lemma_raster_complete(m: Seq<Seq<u8>>, r: int, c: int)
    requires
        0 <= r < m.len(),
        0 <= c < m.len(),
        occ(m, r, c),
    ensures
        raster_pts(m).contains(Point { x: c as i32, y: r as i32 }),
{
    lemma_pts_upto_complete(m, m.len() as int, r, c);
}

/// A tetromino: a square 0/1 occupancy matrix together with a colour.
pub struct Piece {
    pub color: Color,
    pub shape: Vec<Vec<u8>>,
}

impl Piece {
    /// The occupancy matrix as a sequence of rows.
    pub open spec fn matrix(&self) -> Seq<Seq<u8>> {
        self.shape@.map_values(|row: Vec<u8>| row@)
    }

    /// The side length of the occupancy matrix.
    pub open spec fn size(&self) -> int {
        self.shape@.len() as int
    }

    /// A piece is well formed when its matrix is square, of side 2 to 4,
    /// and has at least one occupied cell.
    pub open spec fn wf(&self) -> bool {
        &&& 2 <= self.size() <= 4
        &&& is_square(self.matrix())
        &&& exists|r: int, c: int|
            0 <= r < self.size() && 0 <= c < self.size() && occ(self.matrix(), r, c)
    }
}

/// The canonical occupancy matrix of piece kind `k`.
/// Kinds are numbered O, L, J, T, S, Z, I, in that order.
pub open spec fn canon_matrix(k: int) -> Seq<Seq<u8>> {
    if k == 0 {
        seq![seq![1u8, 1u8], seq![1u8, 1u8]]
    } else if k == 1 {
        seq![seq![0u8, 0u8, 1u8], seq![1u8, 1u8, 1u8], seq![0u8, 0u8, 0u8]]
    } else if k == 2 {
        seq![seq![1u8, 0u8, 0u8], seq![1u8, 1u8, 1u8], seq![0u8, 0u8, 0u8]]
    } else if k == 3 {
        seq![seq![0u8, 1u8, 0u8], seq![1u8, 1u8, 1u8], seq![0u8, 0u8, 0u8]]
    } else if k == 4 {
        seq![seq![0u8, 1u8, 1u8], seq![1u8, 1u8, 0u8], seq![0u8, 0u8, 0u8]]
    } else if k == 5 {
        seq![seq![1u8, 1u8, 0u8], seq![0u8, 1u8, 1u8], seq![0u8, 0u8, 0u8]]
    } else {
        seq![
            seq![0u8, 0u8, 0u8, 0u8],
            seq![1u8, 1u8, 1u8, 1u8],
            seq![0u8, 0u8, 0u8, 0u8],
            seq![0u8, 0u8, 0u8, 0u8],
        ]
    }
}

/// The canonical colour of piece kind `k`.
pub open spec fn canon_color(k: int) -> Color {
    if k == 1 {
        Color::Orange
    } else if k == 2 {
        Color::Blue
    } else if k == 3 {
        Color::Purple
    } else if k == 4 {
        Color::Green
    } else if k == 5 {
        Color::Red
    } else {
        Color::Cyan
    }
}

/// The piece is the canonical piece of kind `k`.
pub open spec fn is_kind(p: &Piece, k: int) -> bool {
    p.matrix() == canon_matrix(k) && p.color == canon_color(k)
}

/// Each canonical piece is well formed.
pub proof fn lemma_kind_wf(p: &Piece, k: int)
    requires
        0 <= k < 7,
        is_kind(p, k),
    ensures
        p.wf(),
{
    let m = p.matrix();
    assert forall|i: int| 0 <= i < m.len() implies (#[trigger] m[i]).len() == m.len() by {
        if i == 0 {
            assert(m[0].len() == m.len());
        } else if i == 1 {
            assert(m[1].len() == m.len());
        } else if i == 2 {
            assert(m[2].len() == m.len());
        } else {
            assert(m[3].len() == m.len());
        }
    }
    if k == 0 {
        assert(occ(m, 0, 0));
    } else if k == 1 {
        assert(occ(m, 0, 2));
    } else if k == 2 {
        assert(occ(m, 0, 0));
    } else if k == 3 {
        assert(occ(m, 0, 1));
    } else if k == 4 {
        assert(occ(m, 0, 1));
    } else if k == 5 {
        assert(occ(m, 0, 0));
    } else {
        assert(occ(m, 1, 0));
    }
}

impl Clone for Piece {
    /// A deep copy: the clone's matrix and colour equal the original's.
    fn clone(&self) -> (res: Self)
        ensures
            res.color == self.color,
            res.matrix() == self.matrix(),
    {
        let mut shape: Vec<Vec<u8>> = Vec::new();
        let mut i: usize = 0;
        while i < self.shape.len()
            invariant
                i <= self.shape@.len(),
                shape@.len() == i as int,
                forall|k: int| 0 <= k < i ==> #[trigger] shape@[k]@ == self.shape@[k]@,
            decreases self.shape@.len() - i,
        {
            let row = &self.shape[i];
            let mut nrow: Vec<u8> = Vec::new();
            let mut j: usize = 0;
            while j < row.len()
                invariant
                    j <= row@.len(),
                    nrow@.len() == j as int,
                    forall|k: int| 0 <= k < j ==> #[trigger] nrow@[k] == row@[k],
                decreases row@.len() - j,
            {
                nrow.push(row[j]);
                j = j + 1;
            }
            proof {
                assert(nrow@ =~= row@);
            }
            shape.push(nrow);
            i = i + 1;
        }
        let res = Piece { color: self.color, shape };
        proof {
            assert(res.matrix() =~~= self.matrix());
        }
        res
    }
}

impl Piece {
    /// The O piece: a 2 by 2 block.
    pub fn new_o() -> (p: Piece)
        ensures
            is_kind(&p, 0),
            p.wf(),
    {
        let p = Piece { color: Color::Cyan, shape: vec![vec![1u8, 1u8], vec![1u8, 1u8]] };
        proof {
            assert(p.matrix() =~~= canon_matrix(0));
            lemma_kind_wf(&p, 0);
        }
        p
    }

    /// The L piece.
    pub fn new_l() -> (p: Piece)
        ensures
            is_kind(&p, 1),
            p.wf(),
    {
        let p = Piece {
            color: Color::Orange,
            shape: vec![vec![0u8, 0u8, 1u8], vec![1u8, 1u8, 1u8], vec![0u8, 0u8, 0u8]],
        };
        proof {
            assert(p.matrix() =~~= canon_matrix(1));
            lemma_kind_wf(&p, 1);
        }
        p
    }

    /// The J piece.
    pub fn new_j() -> (p: Piece)
        ensures
            is_kind(&p, 2),
            p.wf(),
    {
        let p = Piece {
            color: Color::Blue,
            shape: vec![vec![1u8, 0u8, 0u8], vec![1u8, 1u8, 1u8], vec![0u8, 0u8, 0u8]],
        };
        proof {
            assert(p.matrix() =~~= canon_matrix(2));
            lemma_kind_wf(&p, 2);
        }
        p
    }

    /// The T piece.
    pub fn new_t() -> (p: Piece)
        ensures
            is_kind(&p, 3),
            p.wf(),
    {
        let p = Piece {
            color: Color::Purple,
            shape: vec![vec![0u8, 1u8, 0u8], vec![1u8, 1u8, 1u8], vec![0u8, 0u8, 0u8]],
        };
        proof {
            assert(p.matrix() =~~= canon_matrix(3));
            lemma_kind_wf(&p, 3);
        }
        p
    }

    /// The S piece.
    pub fn new_s() -> (p: Piece)
        ensures
            is_kind(&p, 4),
            p.wf(),
    {
        let p = Piece {
            color: Color::Green,
            shape: vec![vec![0u8, 1u8, 1u8], vec![1u8, 1u8, 0u8], vec![0u8, 0u8, 0u8]],
        };
        proof {
            assert(p.matrix() =~~= canon_matrix(4));
            lemma_kind_wf(&p, 4);
        }
        p
    }

    /// The Z piece.
    pub fn new_z() -> (p: Piece)
        ensures
            is_kind(&p, 5),
            p.wf(),
    {
        let p = Piece {
            color: Color::Red,
            shape: vec![vec![1u8, 1u8, 0u8], vec![0u8, 1u8, 1u8], vec![0u8, 0u8, 0u8]],
        };
        proof {
            assert(p.matrix() =~~= canon_matrix(5));
            lemma_kind_wf(&p, 5);
        }
        p
    }

    /// The I piece: a 4 by 4 matrix with one full row.
    pub fn new_i() -> (p: Piece)
        ensures
            is_kind(&p, 6),
            p.wf(),
    {
        let p = Piece {
            color: Color::Cyan,
            shape: vec![
                vec![0u8, 0u8, 0u8, 0u8],
                vec![1u8, 1u8, 1u8, 1u8],
                vec![0u8, 0u8, 0u8, 0u8],
                vec![0u8, 0u8, 0u8, 0u8],
            ],
        };
        proof {
            assert(p.matrix() =~~= canon_matrix(6));
            lemma_kind_wf(&p, 6);
        }
        p
    }

    /// Rotates the occupancy matrix a quarter turn in the given direction.
    /// Purely geometric: no bounds or collision checking.
    pub fn rotate(&mut self, direction: Direction)
        requires
            old(self).wf(),
        ensures
            final(self).wf(),
            final(self).color == old(self).color,
            final(self).size() == old(self).size(),
            direction == Direction::Right ==> final(self).matrix() == rot_right(old(self).matrix()),
            direction == Direction::Left ==> final(self).matrix() == rot_left(old(self).matrix()),
    {
        let n: usize = self.shape.len();
        let ghost m = self.matrix();
        proof {
            assert forall|i: int| 0 <= i < n implies (#[trigger] self.shape@[i])@.len() == n by {
                assert(m[i] == self.shape@[i]@);
            }
        }
        let mut out: Vec<Vec<u8>> = Vec::new();
        let mut r: usize = 0;
        while r < n
            invariant
                *self == *old(self),
                old(self).wf(),
                n == old(self).size(),
                m == old(self).matrix(),
                self.shape@.len() == n,
                forall|i: int| 0 <= i < n ==> (#[trigger] self.shape@[i])@.len() == n,
                r <= n,
                out@.len() == r as int,
                forall|i: int| 0 <= i < r ==> (#[trigger] out@[i]@).len() == n,
                forall|i: int, j: int| 0 <= i < r && 0 <= j < n ==> #[trigger] out@[i]@[j]
                    == if direction == Direction::Right { m[n - 1 - j][i] } else { m[j][n - 1 - i] },
            decreases n - r,
        {
            let mut nrow: Vec<u8> = Vec::new();
            let mut c: usize = 0;
            while c < n
                invariant
                    *self == *old(self),
                    old(self).wf(),
                    n == old(self).size(),
                    m == old(self).matrix(),
                    self.shape@.len() == n,
                    forall|i: int| 0 <= i < n ==> (#[trigger] self.shape@[i])@.len() == n,
                    r < n,
                    c <= n,
                    nrow@.len() == c as int,
                    forall|j: int| 0 <= j < c ==> #[trigger] nrow@[j]
                        == if direction == Direction::Right { m[n - 1 - j][r as int] } else { m[j][n - 1 - r] },
                decreases n - c,
            {
                let v: u8 = match direction {
                    Direction::Right => self.shape[n - 1 - c][r],
                    Direction::Left => self.shape[c][n - 1 - r],
                };
                nrow.push(v);
                c = c + 1;
            }
            out.push(nrow);
            r = r + 1;
        }
        self.shape = out;
        proof {
            if direction == Direction::Right {
                assert forall|i: int| 0 <= i < n implies self.matrix()[i] =~= rot_right(m)[i] by {
                    lemma_rot_right_idx(m, i, 0);
                }
                assert(self.matrix() =~~= rot_right(m));
                let (r0, c0) = choose|r0: int, c0: int|
                    0 <= r0 < old(self).size() && 0 <= c0 < old(self).size() && occ(m, r0, c0);
                lemma_rot_right_idx(m, c0, n - 1 - r0);
                assert(occ(self.matrix(), c0, n - 1 - r0));
            } else {
                assert forall|i: int| 0 <= i < n implies self.matrix()[i] =~= rot_left(m)[i] by {
                    lemma_rot_left_idx(m, i, 0);
                }
                assert(self.matrix() =~~= rot_left(m));
                let (r0, c0) = choose|r0: int, c0: int|
                    0 <= r0 < old(self).size() && 0 <= c0 < old(self).size() && occ(m, r0, c0);
                lemma_rot_left_idx(m, n - 1 - c0, r0);
                assert(occ(self.matrix(), n - 1 - c0, r0));
            }
        }
    }

    /// Enumerates the occupied offsets of the matrix in raster order:
    /// row-major, top to bottom, left to right. Every geometric operation
    /// treats the piece solely through this enumeration.
    pub fn each_point(&self) -> (pts: Vec<Point>)
        requires
            self.wf(),
        ensures
            pts@ == raster_pts(self.matrix()),
    {
        let n: usize = self.shape.len();
        let ghost m = self.matrix();
        proof {
            assert forall|i: int| 0 <= i < n implies (#[trigger] self.shape@[i])@.len() == n by {
                assert(m[i] == self.shape@[i]@);
            }
        }
        let mut pts: Vec<Point> = Vec::new();
        let mut r: usize = 0;
        while r < n
            invariant
                self.wf(),
                n == self.size(),
                m == self.matrix(),
                self.shape@.len() == n,
                forall|i: int| 0 <= i < n ==> (#[trigger] self.shape@[i])@.len() == n,
                r <= n,
                pts@ == pts_upto(m, r as int),
            decreases n - r,
        {
            let mut c: usize = 0;
            while c < n
                invariant
                    self.wf(),
                    n == self.size(),
                    m == self.matrix(),
                    self.shape@.len() == n,
                    forall|i: int| 0 <= i < n ==> (#[trigger] self.shape@[i])@.len() == n,
                    r < n,
                    c <= n,
                    pts@ == pts_upto(m, r as int) + pts_row(m, r as int, c as int),
                decreases n - c,
            {
                if self.shape[r][c] != 0 {
                    pts.push(Point { x: c as i32, y: r as i32 });
                }
                c = c + 1;
                proof {
                    assert(pts_row(m, r as int, c as int) == pts_row(m, r as int, c - 1)
                        + (if occ(m, r as int, c - 1) {
                            seq![(Point { x: (c - 1) as i32, y: r as i32 })]
                        } else {
                            Seq::<Point>::empty()
                        }));
                    assert(pts@ =~= pts_upto(m, r as int) + pts_row(m, r as int, c as int));
                }
            }
            r = r + 1;
            proof {
                assert(pts_upto(m, r as int) == pts_upto(m, r - 1) + pts_row(m, r - 1, m.len() as int));
                assert(pts@ =~= pts_upto(m, r as int));
            }
        }
        proof {
            assert(pts@ == raster_pts(m));
        }
        pts
    }
}

} // verus!
