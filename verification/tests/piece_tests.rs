use blockfall::piece::Piece;
use blockfall::Color;
use blockfall::Direction;
use blockfall::Point;

#[test]
fn rotate_right_four_times_restores_shape() {
    for mut p in [
        Piece::new_o(),
        Piece::new_l(),
        Piece::new_j(),
        Piece::new_t(),
        Piece::new_s(),
        Piece::new_z(),
        Piece::new_i(),
    ] {
        let original = p.shape.clone();
        for _ in 0..4 {
            p.rotate(Direction::Right);
        }
        assert_eq!(p.shape, original);
    }
}

#[test]
fn rotate_left_four_times_restores_shape() {
    for mut p in [Piece::new_l(), Piece::new_i(), Piece::new_t()] {
        let original = p.shape.clone();
        for _ in 0..4 {
            p.rotate(Direction::Left);
        }
        assert_eq!(p.shape, original);
    }
}

#[test]
fn rotate_right_once_l_piece() {
    let mut p = Piece::new_l();
    p.rotate(Direction::Right);
    assert_eq!(p.shape, vec![vec![0, 1, 0], vec![0, 1, 0], vec![0, 1, 1]]);
}

#[test]
fn rotate_left_once_l_piece() {
    let mut p = Piece::new_l();
    p.rotate(Direction::Left);
    assert_eq!(p.shape, vec![vec![1, 1, 0], vec![0, 1, 0], vec![0, 1, 0]]);
}

#[test]
fn rotation_preserves_occupancy_count() {
    let mut p = Piece::new_s();
    let count = |q: &Piece| {
        q.shape
            .iter()
            .map(|r| r.iter().filter(|v| **v != 0).count())
            .sum::<usize>()
    };
    let before = count(&p);
    p.rotate(Direction::Right);
    assert_eq!(count(&p), before);
}

#[test]
fn each_point_enumerates_in_raster_order() {
    let p = Piece::new_t();
    let pts = p.each_point();
    assert_eq!(
        pts,
        vec![
            Point { x: 1, y: 0 },
            Point { x: 0, y: 1 },
            Point { x: 1, y: 1 },
            Point { x: 2, y: 1 },
        ]
    );
}

#[test]
fn canonical_shapes_and_colors() {
    let o = Piece::new_o();
    assert_eq!(o.shape, vec![vec![1, 1], vec![1, 1]]);
    assert_eq!(o.color, Color::Cyan);
    let i = Piece::new_i();
    assert_eq!(i.shape.len(), 4);
    assert_eq!(i.shape[1], vec![1, 1, 1, 1]);
    let z = Piece::new_z();
    assert_eq!(z.color, Color::Red);
    let s = Piece::new_s();
    assert_eq!(s.color, Color::Green);
    let l = Piece::new_l();
    assert_eq!(l.color, Color::Orange);
    let j = Piece::new_j();
    assert_eq!(j.color, Color::Blue);
    let t = Piece::new_t();
    assert_eq!(t.color, Color::Purple);
}

#[test]
fn clone_is_deep() {
    let p = Piece::new_t();
    let mut q = p.clone();
    q.rotate(Direction::Right);
    assert_eq!(p.shape, Piece::new_t().shape);
    assert_ne!(p.shape, q.shape);
}
