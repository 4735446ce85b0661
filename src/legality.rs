//! The legality filter (simulate each move, keep those that leave the mover
//! out of check), move counts and the material rule.

use vstd::prelude::*;
use crate::piece::{Color, Piece, PieceType};
use crate::position::{Position, apply_move_spec};
use crate::movegen::{all_valid, in_check_spec, lemma_move_targets_valid, move_targets};
use crate::square::{Square, valid_square};

verus! {

/// Of the destinations `targets` of the piece on `from`, those after which
/// `color` is not in check (the move simulated with automatic promotion).
pub open spec fn safe_moves(p: Position, from: Square, color: Color, targets: Seq<Square>) -> Seq<
    Square,
>
    decreases targets.len(),
{
    if targets.len() == 0 {
        seq![]
    } else {
        let rest = safe_moves(p, from, color, targets.drop_last());
        let to = targets.last();
        if !in_check_spec(apply_move_spec(p, from, to, true), color) {
            rest.push(to)
        } else {
            rest
        }
    }
}

/// The legal destinations of the piece on `from`: its pseudo-legal moves
/// that leave its own side out of check. Empty for an empty square, for a
/// piece of the side not to move, and while a promotion is pending.
pub open spec fn legal_moves_spec(p: Position, from: Square) -> Seq<Square> {
    match p.piece_on(from) {
        None => seq![],
        Some(pc) => if pc.color != p.turn || p.promotion_square is Some {
            seq![]
        } else {
            safe_moves(p, from, pc.color, move_targets(p, from.0 as int, from.1 as int))
        },
    }
}

/// Every legal destination is a square of the board.
pub proof fn lemma_legal_moves_valid(p: Position, from: Square)
    requires
        valid_square(from),
    ensures
        all_valid(legal_moves_spec(p, from)),
{
    lemma_move_targets_valid(p, from.0 as int, from.1 as int);
    if let Some(pc) = p.piece_on(from) {
        let t = move_targets(p, from.0 as int, from.1 as int);
        assert forall|k: int| 0 <= k < legal_moves_spec(p, from).len() implies valid_square(
            #[trigger] legal_moves_spec(p, from)[k],
        ) by {
            if pc.color == p.turn && p.promotion_square is None {
                lemma_safe_moves_safe(p, from, pc.color, t, legal_moves_spec(p, from)[k]);
            }
        }
    }
}

/// A destination kept by the filter leaves `color` out of check.
pub proof fn lemma_safe_moves_safe(p: Position, from: Square, color: Color, targets: Seq<Square>, to: Square)
    requires
        safe_moves(p, from, color, targets).contains(to),
    ensures
        targets.contains(to),
        !in_check_spec(apply_move_spec(p, from, to, true), color),
    decreases targets.len(),
{
    let rest = safe_moves(p, from, color, targets.drop_last());
    if rest.contains(to) {
        lemma_safe_moves_safe(p, from, color, targets.drop_last(), to);
        let k = choose|k: int| 0 <= k < targets.drop_last().len() && targets.drop_last()[k] == to;
        assert(targets[k] == to);
    } else {
        assert(to == targets.last());
        assert(targets[targets.len() - 1] == to);
    }
}

/// The squares of rank `r` among the first `n` files that hold a piece of
/// `color`, each with its legal destinations.
pub open spec fn legal_in_rank(p: Position, color: Color, r: int, n: int) -> Seq<(Square, Seq<Square>)>
    decreases n,
{
    if n <= 0 {
        seq![]
    } else {
        let sq = (r as usize, (n - 1) as usize);
        legal_in_rank(p, color, r, n - 1) + if p.at(r, n - 1) matches Some(q) && q.color == color {
            seq![(sq, legal_moves_spec(p, sq))]
        } else {
            seq![]
        }
    }
}

/// The same over the first `n` ranks.
pub open spec fn legal_upto(p: Position, color: Color, n: int) -> Seq<(Square, Seq<Square>)>
    decreases n,
{
    if n <= 0 {
        seq![]
    } else {
        legal_upto(p, color, n - 1) + legal_in_rank(p, color, n - 1, 8)
    }
}

/// Every square holding a piece of `color`, from a8 on, with the legal
/// destinations of that piece (possibly none).
pub open spec fn all_legal_moves_spec(p: Position, color: Color) -> Seq<(Square, Seq<Square>)> {
    legal_upto(p, color, 8)
}

/// The number of destinations in such a list.
pub open spec fn count_moves(s: Seq<(Square, Seq<Square>)>) -> nat
    decreases s.len(),
{
    if s.len() == 0 {
        0
    } else {
        count_moves(s.drop_last()) + s.last().1.len()
    }
}

/// The number of legal moves of `color`.
pub open spec fn legal_move_count(p: Position, color: Color) -> nat {
    count_moves(all_legal_moves_spec(p, color))
}

/// A list of squares with destination vectors, as mathematical values.
pub open spec fn moves_view(v: Seq<(Square, Vec<Square>)>) -> Seq<(Square, Seq<Square>)> {
    v.map_values(|e: (Square, Vec<Square>)| (e.0, e.1@))
}

/// How many squares of `b` hold a piece of the given kind and side.
pub open spec fn count_kind(b: Seq<Option<Piece>>, color: Color, kind: PieceType) -> nat
    decreases b.len(),
{
    if b.len() == 0 {
        0
    } else {
        count_kind(b.drop_last(), color, kind) + if b.last() == Some(Piece { piece_type: kind, color }) {
            1nat
        } else {
            0nat
        }
    }
}

/// How many squares of `b` hold a piece of `color`.
pub open spec fn count_side(b: Seq<Option<Piece>>, color: Color) -> nat
    decreases b.len(),
{
    if b.len() == 0 {
        0
    } else {
        count_side(b.drop_last(), color) + if b.last() matches Some(q) && q.color == color {
            1nat
        } else {
            0nat
        }
    }
}

/// The pieces of `color` cannot force mate: a lone king, a king with one
/// knight or one bishop, or a king with two knights.
pub open spec fn insufficient_material(p: Position, color: Color) -> bool {
    let b = p.board@;
    let kings = count_kind(b, color, PieceType::King);
    let knights = count_kind(b, color, PieceType::Knight);
    let bishops = count_kind(b, color, PieceType::Bishop);
    &&& kings == 1
    &&& count_side(b, color) == kings + knights + bishops
    &&& ((knights == 0 && bishops <= 1) || (knights <= 2 && bishops == 0))
}

/// Every destination that leaves `color` out of check is kept by the filter.
pub proof fn lemma_safe_moves_complete(p: Position, from: Square, color: Color, targets: Seq<Square>, to: Square)
    requires
        targets.contains(to),
        !in_check_spec(apply_move_spec(p, from, to, true), color),
    ensures
        safe_moves(p, from, color, targets).contains(to),
    decreases targets.len(),
{
    let rest = safe_moves(p, from, color, targets.drop_last());
    if targets.last() == to {
        assert(rest.push(to)[rest.len() as int] == to);
    } else {
        let k = choose|k: int| 0 <= k < targets.len() && targets[k] == to;
        assert(k < targets.len() - 1);
        assert(targets.drop_last()[k] == to);
        lemma_safe_moves_complete(p, from, color, targets.drop_last(), to);
        let j = choose|j: int| 0 <= j < rest.len() && rest[j] == to;
        let all = safe_moves(p, from, color, targets);
        if !in_check_spec(apply_move_spec(p, from, targets.last(), true), color) {
            assert(all[j] == to);
        }
    }
}

impl Position {
    /// The legal destinations of the piece on (i, j): each pseudo-legal
    /// move is simulated and kept when it leaves the mover out of check.
    pub fn legal_moves_at(&self, i: usize, j: usize) -> (r: Vec<Square>)
        requires
            self.wf(),
            i < 8,
            j < 8,
        ensures
            r@ == legal_moves_spec(*self, (i, j)),
    {
        let color = match self.get(i, j) {
            Some(piece) => piece.color,
            None => return Vec::new(),
        };
        if color != self.turn || self.promotion_square.is_some() {
            return Vec::new();
        }
        let pseudo_legal_moves = self.pseudo_legal_moves_at(i, j);
        proof {
            lemma_move_targets_valid(*self, i as int, j as int);
        }
        let mut legal_moves: Vec<Square> = Vec::new();
        let mut k: usize = 0;
        while k < pseudo_legal_moves.len()
            invariant
                self.wf(),
                i < 8,
                j < 8,
                k <= pseudo_legal_moves@.len(),
                self.at(i as int, j as int) matches Some(pc) && pc.color == color,
                all_valid(pseudo_legal_moves@),
                legal_moves@ == safe_moves(
                    *self,
                    (i, j),
                    color,
                    pseudo_legal_moves@.subrange(0, k as int),
                ),
            decreases pseudo_legal_moves@.len() - k,
        {
            let mve = pseudo_legal_moves[k];
            let next = self.apply_move((i, j), mve, true);
            if !next.in_check(color) {
                legal_moves.push(mve);
            }
            proof {
                let sub = pseudo_legal_moves@.subrange(0, k + 1);
                assert(sub.drop_last() =~= pseudo_legal_moves@.subrange(0, k as int));
                assert(sub.last() == mve);
            }
            k += 1;
        }
        assert(pseudo_legal_moves@.subrange(0, pseudo_legal_moves@.len() as int)
            =~= pseudo_legal_moves@);
        legal_moves
    }

    /// Every square holding a piece of `color`, from a8 on, with the legal
    /// destinations of that piece.
    pub fn all_legal_moves(&self, color: Color) -> (r: Vec<(Square, Vec<Square>)>)
        requires
            self.wf(),
        ensures
            moves_view(r@) == all_legal_moves_spec(*self, color),
    {
        let mut res: Vec<(Square, Vec<Square>)> = Vec::new();
        let mut i: usize = 0;
        while i < 8
            invariant
                self.wf(),
                i <= 8,
                moves_view(res@) == legal_upto(*self, color, i as int),
            decreases 8 - i,
        {
            let ghost before = moves_view(res@);
            let mut j: usize = 0;
            while j < 8
                invariant
                    self.wf(),
                    i < 8,
                    j <= 8,
                    moves_view(res@) == before + legal_in_rank(*self, color, i as int, j as int),
                decreases 8 - j,
            {
                let ghost prev = res@;
                if let Some(piece) = self.get(i, j) {
                    if piece.color == color {
                        let legal = self.legal_moves_at(i, j);
                        res.push(((i, j), legal));
                        assert(moves_view(res@) =~= moves_view(prev).push(((i, j), legal@)));
                    }
                }
                assert(moves_view(res@) =~= before + legal_in_rank(*self, color, i as int, j + 1));
                j += 1;
            }
            assert(moves_view(res@) =~= legal_upto(*self, color, i + 1));
            i += 1;
        }
        res
    }

    /// The number of legal moves of `color`, saturating at `usize::MAX`.
    pub fn num_of_legal_moves(&self, color: Color) -> (r: usize)
        requires
            self.wf(),
        ensures
            r as nat == if legal_move_count(*self, color) < usize::MAX {
                legal_move_count(*self, color)
            } else {
                usize::MAX as nat
            },
    {
        let all = self.all_legal_moves(color);
        let ghost m = moves_view(all@);
        let mut res: usize = 0;
        let mut k: usize = 0;
        while k < all.len()
            invariant
                k <= all@.len(),
                m == moves_view(all@),
                res as nat == if count_moves(m.subrange(0, k as int)) < usize::MAX {
                    count_moves(m.subrange(0, k as int))
                } else {
                    usize::MAX as nat
                },
            decreases all@.len() - k,
        {
            let n = all[k].1.len();
            res = if res <= usize::MAX - n {
                res + n
            } else {
                usize::MAX
            };
            proof {
                let sub = m.subrange(0, k + 1);
                assert(sub.drop_last() =~= m.subrange(0, k as int));
                assert(sub.last().1.len() == n);
            }
            k += 1;
        }
        assert(m.subrange(0, m.len() as int) =~= m);
        res
    }

    /// Whether `color` has more than the material that cannot force mate.
    pub fn can_win(&self, color: Color) -> (r: bool)
        ensures
            r == !insufficient_material(*self, color),
    {
        let ghost b = self.board@;
        let mut kings: u32 = 0;
        let mut knights: u32 = 0;
        let mut bishops: u32 = 0;
        let mut all: u32 = 0;
        let mut k: usize = 0;
        while k < 64
            invariant
                k <= 64,
                b == self.board@,
                kings as nat == count_kind(b.subrange(0, k as int), color, PieceType::King),
                knights as nat == count_kind(b.subrange(0, k as int), color, PieceType::Knight),
                bishops as nat == count_kind(b.subrange(0, k as int), color, PieceType::Bishop),
                all as nat == count_side(b.subrange(0, k as int), color),
                all <= k,
                kings <= all,
                knights <= all,
                bishops <= all,
            decreases 64 - k,
        {
            proof {
                let sub = b.subrange(0, k + 1);
                assert(sub.drop_last() =~= b.subrange(0, k as int));
                assert(sub.last() == b[k as int]);
            }
            if let Some(piece) = self.board[k] {
                if piece.color == color {
                    all += 1;
                    match piece.piece_type {
                        PieceType::King => kings += 1,
                        PieceType::Knight => knights += 1,
                        PieceType::Bishop => bishops += 1,
                        _ => {},
                    }
                }
            }
            k += 1;
        }
        assert(b.subrange(0, 64) =~= b);
        !(kings == 1 && all == kings + knights + bishops && ((knights == 0 && bishops <= 1) || (
        knights <= 2 && bishops == 0)))
    }
}

} // verus!
