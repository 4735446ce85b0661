//! Laws of the engine that relate several operations.

use vstd::prelude::*;
use crate::piece::{Color, Piece, PieceType, opposite_spec};
use crate::position::{Position, apply_move_spec, double_push, sq_index, takes_en_passant};
use crate::movegen::{
    attacks_in_rank, attacks_upto, bishop_dirs, can_castle_kingside, can_castle_queenside, forward, home_rank,
    in_check_spec, is_attacked, knight_dirs, move_targets, pawn_moves, queen_dirs, ray, rays,
    rook_dirs,
};
use crate::legality::{
    all_legal_moves_spec, count_kind, count_moves, count_side, insufficient_material, legal_in_rank,
    legal_move_count, legal_moves_spec, legal_upto, lemma_legal_moves_valid, lemma_safe_moves_complete, lemma_safe_moves_safe,
};
use crate::game::{DrawState, GameState, GameView, after_move, after_undo, is_legal_move, state_spec};
use crate::fen::{fen_describes, fen_of, fen_valid, lemma_fen_round_trip};
use crate::square::{Square, valid_square, on_board, en_passant_side};

verus! {

/// Every legal move of a piece leaves its own side out of check once
/// played (the legality filter plays it with automatic promotion).
pub proof fn lemma_legal_move_leaves_no_check(p: Position, from: Square, to: Square)
    requires
        legal_moves_spec(p, from).contains(to),
    ensures
        p.piece_on(from) is Some,
        p.piece_on(from)->0.color == p.turn,
        !in_check_spec(apply_move_spec(p, from, to, true), p.turn),
{
    let pc = p.piece_on(from)->0;
    lemma_safe_moves_safe(p, from, pc.color, move_targets(p, from.0 as int, from.1 as int), to);
}

/// The legal moves of the side to move are exactly its pieces' pseudo-legal
/// moves after which that side is not in check (while no promotion is
/// pending).
pub proof fn lemma_legal_moves_are_safe_pseudo_legal_moves(p: Position, from: Square, to: Square)
    requires
        p.promotion_square is None,
        p.piece_on(from) matches Some(pc) && pc.color == p.turn,
    ensures
        legal_moves_spec(p, from).contains(to) <==> (move_targets(p, from.0 as int, from.1 as int).contains(
            to,
        ) && !in_check_spec(apply_move_spec(p, from, to, true), p.turn)),
{
    let t = move_targets(p, from.0 as int, from.1 as int);
    if legal_moves_spec(p, from).contains(to) {
        lemma_safe_moves_safe(p, from, p.turn, t, to);
    }
    if t.contains(to) && !in_check_spec(apply_move_spec(p, from, to, true), p.turn) {
        lemma_safe_moves_complete(p, from, p.turn, t, to);
    }
}

/// Undoing a move restores the game exactly as it was before the move:
/// board, side to move, castling rights, en-passant target, clocks, capture
/// log and the history of earlier moves.
pub proof fn lemma_undo_restores(g: GameView, from: Square, to: Square, auto_promote: bool)
    requires
        g.captures.len() <= usize::MAX,
    ensures
        after_undo(after_move(g, from, to, auto_promote)) == g,
{
    let m = after_move(g, from, to, auto_promote);
    assert(m.history.drop_last() =~= g.history);
    assert(m.captures.subrange(0, g.captures.len() as int) =~= g.captures);
}


/// After a move, an en-passant target is set exactly when the move was a
/// pawn's double advance, and then it is the square passed over: a target
/// lasts for the one following move only.
pub proof fn lemma_en_passant_target_lifetime(p: Position, from: Square, to: Square, auto_promote: bool)
    ensures
        apply_move_spec(p, from, to, auto_promote).en_passant_square == if double_push(p, from, to) {
            Some((((from.0 + to.0) / 2) as usize, from.1))
        } else {
            None
        },
{
}

/// A pawn that may move diagonally onto an empty en-passant target stands
/// beside the pawn that just advanced past it: on the rank behind the
/// target, one file away, and of the side allowed to take on that rank.
pub proof fn lemma_en_passant_capturer(p: Position, r: int, c: int, color: Color)
    requires
        on_board(r, c),
        p.en_passant_square matches Some(t) && p.piece_on(t) is None && pawn_moves(p, r, c, color).contains(t)
            && t.1 as int != c,
    ensures
        ({
            let t = p.en_passant_square->0;
            &&& t.0 as int == r + forward(color)
            &&& r == t.0 as int - forward(color)
            &&& (c == t.1 as int + 1 || c + 1 == t.1 as int)
            &&& en_passant_side(t.0 as int) == Some(color)
        }),
{
    let t = p.en_passant_square->0;
    let m = pawn_moves(p, r, c, color);
    let k = choose|k: int| 0 <= k < m.len() && m[k] == t;
    assert(m[k] == t);
}

/// Taking en passant puts the capturing pawn on the target square and
/// removes the captured pawn from the square behind the target.
pub proof fn lemma_en_passant_removes_passed_pawn(p: Position, from: Square, to: Square, auto_promote: bool)
    requires
        valid_square(from),
        valid_square(to),
        takes_en_passant(p, from, to),
        from.1 != to.1,
        from.0 as int == to.0 as int - forward(p.piece_on(from)->0.color),
    ensures
        ({
            let q = apply_move_spec(p, from, to, auto_promote);
            let color = p.piece_on(from)->0.color;
            &&& q.piece_on(to) == p.piece_on(from)
            &&& q.at(to.0 as int - forward(color), to.1 as int) is None
            &&& q.piece_on(from) is None
        }),
{
}

/// Each destination of a one-step walk along directions of at most one file
/// lies at most one file away.
proof fn lemma_step_files(p: Position, color: Color, r: int, c: int, dirs: Seq<(i32, i32)>, attack: bool)
    requires
        forall|k: int| 0 <= k < dirs.len() ==> -1 <= #[trigger] dirs[k].1 <= 1,
    ensures
        forall|k: int|
            0 <= k < rays(p, color, r, c, dirs, 1, attack).len() ==> {
                let sq = #[trigger] rays(p, color, r, c, dirs, 1, attack)[k];
                c - 1 <= sq.1 as int <= c + 1
            },
    decreases dirs.len(),
{
    if dirs.len() > 0 {
        let d = dirs.drop_last();
        assert forall|k: int| 0 <= k < d.len() implies -1 <= #[trigger] d[k].1 <= 1 by {
            assert(d[k] == dirs[k]);
        }
        lemma_step_files(p, color, r, c, d, attack);
        let last = dirs.last();
        assert(-1 <= dirs[dirs.len() - 1].1 <= 1);
        let one = ray(p, color, r, c, last.0 as int, last.1 as int, 1, attack);
        assert(ray(p, color, r + last.0, c + last.1, last.0 as int, last.1 as int, 0, attack) =~= seq![]);
        assert(forall|k: int| 0 <= k < one.len() ==> #[trigger] one[k].1 as int == c + last.1);
        let all = rays(p, color, r, c, dirs, 1, attack);
        let first = rays(p, color, r, c, d, 1, attack);
        assert(all == first + one);
        assert forall|k: int| 0 <= k < all.len() implies c - 1 <= (#[trigger] all[k]).1 as int <= c
            + 1 by {
            if k < first.len() {
                assert(all[k] == first[k]);
            } else {
                assert(all[k] == one[k - first.len()]);
            }
        }
    }
}

/// A legal king move two files towards the king's wing is a castling move:
/// the side still holds that castling right, the king is on its home square,
/// the squares between king and rook are empty, the rook stands on its
/// corner, and the squares the king starts on, crosses and lands on are not
/// attacked by the other side.
pub proof fn lemma_kingside_castling_conditions(p: Position, from: Square, to: Square)
    requires
        valid_square(from),
        legal_moves_spec(p, from).contains(to),
        p.piece_on(from) matches Some(pc) && pc.piece_type == PieceType::King,
        to.1 as int == from.1 as int + 2,
    ensures
        can_castle_kingside(p, from.0 as int, from.1 as int, p.piece_on(from)->0.color),
        to == (from.0, 6usize),
{
    let pc = p.piece_on(from)->0;
    let (r, c) = (from.0 as int, from.1 as int);
    let t = move_targets(p, r, c);
    lemma_safe_moves_safe(p, from, pc.color, t, to);
    let steps = rays(p, pc.color, r, c, queen_dirs(), 1, false);
    lemma_step_files(p, pc.color, r, c, queen_dirs(), false);
    let k = choose|k: int| 0 <= k < t.len() && t[k] == to;
    if k < steps.len() {
        assert(t[k] == steps[k]);
    } else if k == steps.len() && can_castle_kingside(p, r, c, pc.color) {
    } else {
        assert(t[k].1 == 2 || t[k].1 == 6);
    }
}

/// A legal king move two files towards the queen's wing is a castling move
/// under the same conditions, on that wing.
pub proof fn lemma_queenside_castling_conditions(p: Position, from: Square, to: Square)
    requires
        valid_square(from),
        legal_moves_spec(p, from).contains(to),
        p.piece_on(from) matches Some(pc) && pc.piece_type == PieceType::King,
        from.1 as int == to.1 as int + 2,
    ensures
        can_castle_queenside(p, from.0 as int, from.1 as int, p.piece_on(from)->0.color),
        to == (from.0, 2usize),
{
    let pc = p.piece_on(from)->0;
    let (r, c) = (from.0 as int, from.1 as int);
    let t = move_targets(p, r, c);
    lemma_safe_moves_safe(p, from, pc.color, t, to);
    let steps = rays(p, pc.color, r, c, queen_dirs(), 1, false);
    lemma_step_files(p, pc.color, r, c, queen_dirs(), false);
    let k = choose|k: int| 0 <= k < t.len() && t[k] == to;
    if k < steps.len() {
        assert(t[k] == steps[k]);
    } else {
        assert(t[k].1 == 2 || t[k].1 == 6);
    }
}

/// Castling on the king's wing moves king and rook together and takes both
/// castling rights of that side.
pub proof fn lemma_kingside_castling_effect(p: Position, from: Square, to: Square, auto_promote: bool)
    requires
        valid_square(from),
        p.piece_on(from) matches Some(pc) && pc.piece_type == PieceType::King,
        can_castle_kingside(p, from.0 as int, from.1 as int, p.piece_on(from)->0.color),
        to == (from.0, 6usize),
    ensures
        ({
            let color = p.piece_on(from)->0.color;
            let h = home_rank(color);
            let q = apply_move_spec(p, from, to, auto_promote);
            &&& q.at(h, 6) == Some(Piece { piece_type: PieceType::King, color })
            &&& q.at(h, 5) == Some(Piece { piece_type: PieceType::Rook, color })
            &&& q.at(h, 4) is None
            &&& q.at(h, 7) is None
            &&& !q.castling.kingside(color)
            &&& !q.castling.queenside(color)
        }),
{
}

/// A castling right that is gone never comes back: after any move, each
/// right held was already held before.
pub proof fn lemma_castling_rights_never_return(
    p: Position,
    from: Square,
    to: Square,
    auto_promote: bool,
    color: Color,
)
    ensures
        apply_move_spec(p, from, to, auto_promote).castling.kingside(color) ==> p.castling.kingside(color),
        apply_move_spec(p, from, to, auto_promote).castling.queenside(color) ==> p.castling.queenside(color),
{
}


/// A canonical exchange string (the one written for a position) is well
/// formed; reading it gives back exactly that position, and writing out the
/// position read gives the same string again.
pub proof fn lemma_exchange_string_round_trip(p: Position, q: Position)
    requires
        p.wf(),
        p.promotion_square is None,
        fen_describes(fen_of(p), q),
    ensures
        fen_valid(fen_of(p)),
        q == p,
        fen_of(q) == fen_of(p),
{
    lemma_fen_round_trip(p);
    assert(q.board =~= p.board);
}


/// Two positions whose squares agree on occupancy and side everywhere, and
/// agree exactly on the pieces of `by` and on the kings of the other side.
pub open spec fn alike_for(pa: Position, pb: Position, by: Color) -> bool {
    forall|r: int, c: int|
        on_board(r, c) ==> {
            &&& (#[trigger] pa.at(r, c) is Some <==> pb.at(r, c) is Some)
            &&& (pa.at(r, c) is Some ==> pa.at(r, c)->0.color == pb.at(r, c)->0.color)
            &&& (pa.at(r, c) is Some && pa.at(r, c)->0.color == by ==> pa.at(r, c) == pb.at(r, c))
            &&& (pa.at(r, c) == Some(Piece { piece_type: PieceType::King, color: opposite_spec(by) })
                <==> pb.at(r, c) == Some(Piece { piece_type: PieceType::King, color: opposite_spec(by) }))
        }
}

proof fn lemma_alike_ray(
    pa: Position,
    pb: Position,
    by: Color,
    r: int,
    c: int,
    dr: int,
    dc: int,
    steps: nat,
    attack: bool,
)
    requires
        alike_for(pa, pb, by),
    ensures
        ray(pa, by, r, c, dr, dc, steps, attack) == ray(pb, by, r, c, dr, dc, steps, attack),
    decreases steps,
{
    if steps > 0 {
        lemma_alike_ray(pa, pb, by, r + dr, c + dc, dr, dc, (steps - 1) as nat, attack);
        if on_board(r + dr, c + dc) {
            assert(pa.at(r + dr, c + dc) is Some <==> pb.at(r + dr, c + dc) is Some);
        }
    }
}

proof fn lemma_alike_rays(
    pa: Position,
    pb: Position,
    by: Color,
    r: int,
    c: int,
    dirs: Seq<(i32, i32)>,
    steps: nat,
    attack: bool,
)
    requires
        alike_for(pa, pb, by),
    ensures
        rays(pa, by, r, c, dirs, steps, attack) == rays(pb, by, r, c, dirs, steps, attack),
    decreases dirs.len(),
{
    if dirs.len() > 0 {
        lemma_alike_rays(pa, pb, by, r, c, dirs.drop_last(), steps, attack);
        lemma_alike_ray(pa, pb, by, r, c, dirs.last().0 as int, dirs.last().1 as int, steps, attack);
    }
}

proof fn lemma_alike_rank(pa: Position, pb: Position, by: Color, r: int, n: int)
    requires
        alike_for(pa, pb, by),
        0 <= r < 8,
        n <= 8,
    ensures
        attacks_in_rank(pa, by, r, n) == attacks_in_rank(pb, by, r, n),
    decreases n,
{
    if n > 0 {
        lemma_alike_rank(pa, pb, by, r, n - 1);
        let c = n - 1;
        assert(pa.at(r, c) is Some <==> pb.at(r, c) is Some);
        if let Some(q) = pa.at(r, c) {
            if q.color == by {
                assert(pa.at(r, c) == pb.at(r, c));
                match q.piece_type {
                    PieceType::Pawn => {},
                    PieceType::Knight => lemma_alike_rays(pa, pb, by, r, c, knight_dirs(), 1, true),
                    PieceType::Bishop => lemma_alike_rays(pa, pb, by, r, c, bishop_dirs(), 8, true),
                    PieceType::Rook => lemma_alike_rays(pa, pb, by, r, c, rook_dirs(), 8, true),
                    PieceType::Queen => lemma_alike_rays(pa, pb, by, r, c, queen_dirs(), 8, true),
                    PieceType::King => lemma_alike_rays(pa, pb, by, r, c, queen_dirs(), 1, true),
                }
            }
        }
    }
}

proof fn lemma_alike_attacks(pa: Position, pb: Position, by: Color, n: int)
    requires
        alike_for(pa, pb, by),
        n <= 8,
    ensures
        attacks_upto(pa, by, n) == attacks_upto(pb, by, n),
    decreases n,
{
    if n > 0 {
        lemma_alike_attacks(pa, pb, by, n - 1);
        lemma_alike_rank(pa, pb, by, n - 1, 8);
    }
}

/// Whether a move promotes automatically or leaves the promotion pending
/// does not change whether the mover is in check afterwards.
pub proof fn lemma_promotion_choice_keeps_check(p: Position, from: Square, to: Square, color: Color)
    requires
        valid_square(from),
        valid_square(to),
        p.piece_on(from) matches Some(pc) && pc.color == color,
    ensures
        in_check_spec(apply_move_spec(p, from, to, false), color) == in_check_spec(
            apply_move_spec(p, from, to, true),
            color,
        ),
{
    let q1 = apply_move_spec(p, from, to, false);
    let q2 = apply_move_spec(p, from, to, true);
    let by = opposite_spec(color);
    assert(opposite_spec(by) == color);
    assert forall|r: int, c: int| on_board(r, c) implies {
        &&& (#[trigger] q1.at(r, c) is Some <==> q2.at(r, c) is Some)
        &&& (q1.at(r, c) is Some ==> q1.at(r, c)->0.color == q2.at(r, c)->0.color)
        &&& (q1.at(r, c) is Some && q1.at(r, c)->0.color == by ==> q1.at(r, c) == q2.at(r, c))
        &&& (q1.at(r, c) == Some(Piece { piece_type: PieceType::King, color: opposite_spec(by) })
            <==> q2.at(r, c) == Some(Piece { piece_type: PieceType::King, color: opposite_spec(by) }))
    } by {
        if !(r == from.0 as int && c == from.1 as int) && !(r == to.0 as int && c == to.1 as int) {
            assert(q1.board@[sq_index(r, c)] == q2.board@[sq_index(r, c)]);
        }
    }
    lemma_alike_attacks(q1, q2, by, 8);
    if in_check_spec(q1, color) {
        let (r, c) = choose|r: int, c: int|
            on_board(r, c) && #[trigger] q1.at(r, c) == Some(Piece { piece_type: PieceType::King, color })
                && is_attacked(q1, by, r, c);
        assert(q2.at(r, c) == Some(Piece { piece_type: PieceType::King, color }));
    }
    if in_check_spec(q2, color) {
        let (r, c) = choose|r: int, c: int|
            on_board(r, c) && #[trigger] q2.at(r, c) == Some(Piece { piece_type: PieceType::King, color })
                && is_attacked(q2, by, r, c);
        assert(q1.at(r, c) == Some(Piece { piece_type: PieceType::King, color }));
    }
}

/// Playing a legal move through the game, with or without automatic
/// promotion, never leaves the mover's king attacked.
pub proof fn lemma_played_move_leaves_no_check(g: GameView, from: Square, to: Square, auto_promote: bool)
    requires
        is_legal_move(g.position, from, to),
    ensures
        !in_check_spec(after_move(g, from, to, auto_promote).position, g.position.turn),
{
    let p = g.position;
    lemma_legal_move_leaves_no_check(p, from, to);
    lemma_legal_moves_valid(p, from);
    let k = choose|k: int| 0 <= k < legal_moves_spec(p, from).len() && legal_moves_spec(p, from)[k] == to;
    assert(valid_square(legal_moves_spec(p, from)[k]));
    lemma_promotion_choice_keeps_check(p, from, to, p.turn);
}


proof fn lemma_count_zero(s: Seq<(Square, Seq<Square>)>)
    requires
        forall|k: int| 0 <= k < s.len() ==> (#[trigger] s[k]).1.len() == 0,
    ensures
        count_moves(s) == 0,
    decreases s.len(),
{
    if s.len() > 0 {
        assert forall|k: int| 0 <= k < s.drop_last().len() implies (#[trigger] s.drop_last()[k]).1.len()
            == 0 by {
            assert(s.drop_last()[k] == s[k]);
        }
        lemma_count_zero(s.drop_last());
        assert(s.last() == s[s.len() - 1]);
    }
}

proof fn lemma_rank_entries_empty(p: Position, color: Color, r: int, n: int)
    requires
        color != p.turn,
        0 <= r < 8,
        n <= 8,
    ensures
        forall|k: int|
            0 <= k < legal_in_rank(p, color, r, n).len() ==> (#[trigger] legal_in_rank(p, color, r, n)[k]).1.len()
                == 0,
    decreases n,
{
    if n > 0 {
        lemma_rank_entries_empty(p, color, r, n - 1);
        let a = legal_in_rank(p, color, r, n - 1);
        let all = legal_in_rank(p, color, r, n);
        assert forall|k: int| 0 <= k < all.len() implies (#[trigger] all[k]).1.len() == 0 by {
            if k < a.len() {
                assert(all[k] == a[k]);
            } else {
                let sq = (r as usize, (n - 1) as usize);
                assert(p.piece_on(sq) == p.at(r, n - 1));
                assert(all[k] == (sq, legal_moves_spec(p, sq)));
            }
        }
    }
}

proof fn lemma_entries_empty(p: Position, color: Color, n: int)
    requires
        color != p.turn,
        n <= 8,
    ensures
        forall|k: int|
            0 <= k < legal_upto(p, color, n).len() ==> (#[trigger] legal_upto(p, color, n)[k]).1.len() == 0,
    decreases n,
{
    if n > 0 {
        lemma_entries_empty(p, color, n - 1);
        lemma_rank_entries_empty(p, color, n - 1, 8);
        let a = legal_upto(p, color, n - 1);
        let b = legal_in_rank(p, color, n - 1, 8);
        let all = legal_upto(p, color, n);
        assert forall|k: int| 0 <= k < all.len() implies (#[trigger] all[k]).1.len() == 0 by {
            if k < a.len() {
                assert(all[k] == a[k]);
            } else {
                assert(all[k] == b[k - a.len()]);
            }
        }
    }
}

/// The side that is not to move has no legal moves.
pub proof fn lemma_no_moves_out_of_turn(p: Position, color: Color)
    requires
        color != p.turn,
    ensures
        legal_move_count(p, color) == 0,
{
    lemma_entries_empty(p, color, 8);
    lemma_count_zero(all_legal_moves_spec(p, color));
}

/// With no promotion pending and a legal move for the side to move, a
/// half-move clock of at least 100 makes the game a draw by the fifty-move
/// rule.
pub proof fn lemma_fifty_move_draw(p: Position)
    requires
        p.promotion_square is None,
        legal_move_count(p, p.turn) > 0,
        p.half_moves >= 100,
    ensures
        state_spec(p) == GameState::Draw(DrawState::FiftyMoveRule),
{
}

proof fn lemma_kind_counts_bounded(b: Seq<Option<Piece>>, color: Color)
    ensures
        count_kind(b, color, PieceType::King) + count_kind(b, color, PieceType::Knight) + count_kind(
            b,
            color,
            PieceType::Bishop,
        ) <= count_side(b, color),
    decreases b.len(),
{
    if b.len() > 0 {
        lemma_kind_counts_bounded(b.drop_last(), color);
    }
}

/// With only one king of each side on the board, no promotion pending, a
/// legal move for the side to move and a half-move clock under 100, the
/// game is a draw by insufficient material.
pub proof fn lemma_bare_kings_draw(p: Position)
    requires
        p.promotion_square is None,
        legal_move_count(p, p.turn) > 0,
        p.half_moves < 100,
        count_side(p.board@, Color::White) == 1,
        count_kind(p.board@, Color::White, PieceType::King) == 1,
        count_side(p.board@, Color::Black) == 1,
        count_kind(p.board@, Color::Black, PieceType::King) == 1,
    ensures
        state_spec(p) == GameState::Draw(DrawState::InsufficientMaterial),
{
    lemma_kind_counts_bounded(p.board@, Color::White);
    lemma_kind_counts_bounded(p.board@, Color::Black);
    assert(insufficient_material(p, Color::White));
    assert(insufficient_material(p, Color::Black));
}

} // verus!
