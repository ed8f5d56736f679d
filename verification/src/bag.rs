use vstd::prelude::*;
use rand::seq::SliceRandom;
use crate::piece::Piece;
use crate::piece::is_kind;
use crate::piece::lemma_kind_wf;

verus! {

/// Relies on rand::seq::SliceRandom::shuffle: a Fisher-Yates shuffle that
/// permutes the slice's elements in place. Whatever order comes out, the
/// length and the multiset of elements are unchanged.
#[verifier::external_body]
fn shuffle_bytes(v: &mut Vec<u8>)
    ensures
        final(v)@.len() == old(v)@.len(),
        final(v)@.to_multiset() == old(v)@.to_multiset(),
{
    v.shuffle(&mut rand::rng());
}

/// The piece is one of the seven canonical pieces.
pub open spec fn piece_canonical(p: Piece) -> bool {
    exists|k: int| 0 <= k < 7 && #[trigger] is_kind(&p, k)
}

/// Every piece of the sequence is canonical.
pub open spec fn all_canonical(s: Seq<Piece>) -> bool {
    forall|i: int| 0 <= i < s.len() ==> piece_canonical(#[trigger] s[i])
}

/// Some piece of the sequence is the canonical piece of kind `k`.
pub open spec fn has_kind(s: Seq<Piece>, k: int) -> bool {
    exists|i: int| 0 <= i < s.len() && #[trigger] is_kind(&s[i], k)
}

/// A queue of tetrominoes drawn from shuffled full sets of the seven
/// canonical variants.
///
/// Refilling overwrites all seven slots with a freshly shuffled full set,
/// and a refill happens on every draw, so each draw yields the front of a
/// fresh shuffled set and the six pieces queued behind it are discarded.
/// The bag therefore bounds repeats only between one draw and the next
/// preview, not across seven consecutive draws.
pub struct PieceBag {
    pub pieces: Vec<Piece>,
}

impl PieceBag {
    /// The bag always holds exactly seven pieces, each canonical, with
    /// every one of the seven kinds present.
    pub open spec fn wf(&self) -> bool {
        &&& self.pieces@.len() == 7
        &&& all_canonical(self.pieces@)
        &&& forall|k: int| 0 <= k < 7 ==> has_kind(self.pieces@, k)
    }

    /// Overwrites all seven slots with a freshly shuffled full set.
    fn fill_bag(&mut self)
        ensures
            final(self).wf(),
    {
        let mut idx: Vec<u8> = Vec::new();
        idx.push(0);
        idx.push(1);
        idx.push(2);
        idx.push(3);
        idx.push(4);
        idx.push(5);
        idx.push(6);
        let ghost base = idx@;
        proof {
            assert(base =~= seq![0u8, 1u8, 2u8, 3u8, 4u8, 5u8, 6u8]);
        }
        shuffle_bytes(&mut idx);
        proof {
            base.to_multiset_ensures();
            idx@.to_multiset_ensures();
            assert forall|j: int| 0 <= j < 7 implies #[trigger] idx@[j] < 7 by {
                assert(idx@.contains(idx@[j]));
                assert(idx@.to_multiset().count(idx@[j]) > 0);
                assert(base.to_multiset().count(idx@[j]) > 0);
                assert(base.contains(idx@[j]));
                let jj = choose|jj: int| 0 <= jj < base.len() && base[jj] == idx@[j];
            }
        }
        let mut pieces: Vec<Piece> = Vec::new();
        let mut i: usize = 0;
        while i < 7
            invariant
                idx@.len() == 7,
                forall|j: int| 0 <= j < 7 ==> #[trigger] idx@[j] < 7,
                i <= 7,
                pieces@.len() == i as int,
                forall|j: int| 0 <= j < i ==> is_kind(&(#[trigger] pieces@[j]), idx@[j] as int),
            decreases 7 - i,
        {
            let k: u8 = idx[i];
            let p: Piece = if k == 0 {
                Piece::new_o()
            } else if k == 1 {
                Piece::new_l()
            } else if k == 2 {
                Piece::new_j()
            } else if k == 3 {
                Piece::new_t()
            } else if k == 4 {
                Piece::new_s()
            } else if k == 5 {
                Piece::new_z()
            } else {
                Piece::new_i()
            };
            pieces.push(p);
            i = i + 1;
        }
        self.pieces = pieces;
        proof {
            assert forall|i2: int| 0 <= i2 < 7 implies piece_canonical(#[trigger] self.pieces@[i2]) by {
                assert(is_kind(&self.pieces@[i2], idx@[i2] as int));
            }
            assert forall|k: int| 0 <= k < 7 implies has_kind(self.pieces@, k) by {
                assert(base[k] == k as u8);
                assert(base.contains(k as u8));
                assert(base.to_multiset().count(k as u8) > 0);
                assert(idx@.to_multiset().count(k as u8) > 0);
                assert(idx@.contains(k as u8));
                let j = choose|j: int| 0 <= j < idx@.len() && idx@[j] == k as u8;
                assert(is_kind(&self.pieces@[j], k));
            }
        }
    }

    /// A bag primed with one shuffled full set.
    pub fn new() -> (b: PieceBag)
        ensures
            b.wf(),
    {
        let mut b = PieceBag { pieces: Vec::new() };
        b.fill_bag();
        b
    }

    /// Removes and returns the front piece, then refills the bag from a
    /// fresh shuffled full set, so the front slot is never left empty.
    pub fn pop(&mut self) -> (p: Piece)
        requires
            old(self).wf(),
        ensures
            final(self).wf(),
            p == old(self).pieces@[0],
            piece_canonical(p),
            p.wf(),
    {
        let p = self.pieces.remove(0);
        self.fill_bag();
        proof {
            assert(piece_canonical(p));
            let k = choose|k: int| 0 <= k < 7 && is_kind(&p, k);
            lemma_kind_wf(&p, k);
        }
        p
    }

    /// Returns a copy of the front piece without removing it.
    pub fn peek(&self) -> (p: Piece)
        requires
            self.wf(),
        ensures
            p.matrix() == self.pieces@[0].matrix(),
            p.color == self.pieces@[0].color,
            piece_canonical(p),
            p.wf(),
    {
        let p = self.pieces[0].clone();
        proof {
            assert(piece_canonical(self.pieces@[0]));
            let k = choose|k: int| 0 <= k < 7 && is_kind(&self.pieces@[0], k);
            assert(is_kind(&p, k));
            lemma_kind_wf(&p, k);
        }
        p
    }
}

/// A well-formed bag — as every bag returned by `new` or left behind by
/// `pop` is — always has a populated, canonical front slot, so `peek`
/// never aborts between draws.
pub proof fn lemma_front_slot_populated(b: &PieceBag)
    requires
        b.wf(),
    ensures
        b.pieces@.len() > 0,
        piece_canonical(b.pieces@[0]),
{
    assert(piece_canonical(b.pieces@[0]));
}

} // verus!
