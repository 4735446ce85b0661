//! The position: board, side to move, castling rights, en-passant target,
//! clocks and pending promotion, and the state transition of a move.

use vstd::prelude::*;
use vstd::array::spec_array_update;
use crate::piece::{Color, Piece, PieceType, opposite_spec};
use crate::square::{Square, on_board, valid_square, en_passant_side, can_en_passant};
use crate::movegen::{forward, home_rank, last_rank};

verus! {

/// Castling rights of both sides, per wing.
#[derive(Clone, Copy, Debug, PartialEq, Eq, Structural)]
pub struct CastlingRights {
    pub white_kingside: bool,
    pub white_queenside: bool,
    pub black_kingside: bool,
    pub black_queenside: bool,
}

impl CastlingRights {
    /// The side's right to castle on the king's wing.
    pub open spec fn kingside(self, c: Color) -> bool {
        match c {
            Color::White => self.white_kingside,
            Color::Black => self.black_kingside,
        }
    }

    /// The side's right to castle on the queen's wing.
    pub open spec fn queenside(self, c: Color) -> bool {
        match c {
            Color::White => self.white_queenside,
            Color::Black => self.black_queenside,
        }
    }
}

/// A complete chess position: the 64 squares in rank-major order starting
/// at a8, the side to move, castling rights, the en-passant target, the two
/// clocks and a pending promotion, if any.
#[derive(Clone, Copy, Debug)]
pub struct Position {
    pub board: [Option<Piece>; 64],
    pub turn: Color,
    pub castling: CastlingRights,
    pub en_passant_square: Option<Square>,
    pub half_moves: u32,
    pub full_moves: u32,
    pub promotion_square: Option<Square>,
}

/// The index in the board array of rank index `r`, file index `c`.
pub open spec fn sq_index(r: int, c: int) -> int {
    r * 8 + c
}

/// The board array with square (r, c) set to `v`.
pub open spec fn board_set(b: [Option<Piece>; 64], r: int, c: int, v: Option<Piece>) -> [Option<
    Piece,
>; 64] {
    spec_array_update(b, sq_index(r, c), v)
}

/// One more, stopping at `u32::MAX`.
pub open spec fn saturating_inc(x: u32) -> u32 {
    if x < u32::MAX {
        (x + 1) as u32
    } else {
        x
    }
}

/// Rights with the given side's right on one wing taken away.
pub open spec fn without_right(rights: CastlingRights, color: Color, kingside: bool) -> CastlingRights {
    match (color, kingside) {
        (Color::White, true) => CastlingRights { white_kingside: false, ..rights },
        (Color::White, false) => CastlingRights { white_queenside: false, ..rights },
        (Color::Black, true) => CastlingRights { black_kingside: false, ..rights },
        (Color::Black, false) => CastlingRights { black_queenside: false, ..rights },
    }
}

/// Rights after a rook leaves, or is taken on, square `sq`: the right of
/// the wing whose corner `sq` is goes, when `q` is a rook on its home corner.
pub open spec fn rights_after_rook(rights: CastlingRights, sq: Square, q: Option<Piece>) -> CastlingRights {
    match q {
        Some(pc) => if pc.piece_type == PieceType::Rook && sq.0 as int == home_rank(pc.color) {
            if sq.1 == 0 {
                without_right(rights, pc.color, false)
            } else if sq.1 == 7 {
                without_right(rights, pc.color, true)
            } else {
                rights
            }
        } else {
            rights
        },
        None => rights,
    }
}

/// Castling rights after `piece` moves from `from` to `to`, where `captured`
/// stood: a king's move takes both of its side's rights, and a rook that
/// leaves or is taken on its home corner takes that wing's right.
pub open spec fn rights_after_move(
    rights: CastlingRights,
    piece: Piece,
    from: Square,
    to: Square,
    captured: Option<Piece>,
) -> CastlingRights {
    let moved = if piece.piece_type == PieceType::King {
        without_right(without_right(rights, piece.color, true), piece.color, false)
    } else {
        rights_after_rook(rights, from, Some(piece))
    };
    rights_after_rook(moved, to, captured)
}

/// The move is a king's two-file step towards the king's wing.
pub open spec fn castles_kingside(p: Position, from: Square, to: Square) -> bool {
    p.piece_on(from) matches Some(pc) && pc.piece_type == PieceType::King && to.1 as int == from.1 as int + 2
}

/// The move is a king's two-file step towards the queen's wing.
pub open spec fn castles_queenside(p: Position, from: Square, to: Square) -> bool {
    p.piece_on(from) matches Some(pc) && pc.piece_type == PieceType::King && from.1 as int == to.1 as int + 2
}

/// The move is a pawn taking en passant.
pub open spec fn takes_en_passant(p: Position, from: Square, to: Square) -> bool {
    p.piece_on(from) matches Some(pc) && pc.piece_type == PieceType::Pawn && p.en_passant_square
        == Some(to) && en_passant_side(to.0 as int) == Some(pc.color)
}

/// The move is a pawn reaching its last rank.
pub open spec fn promotes(p: Position, from: Square, to: Square) -> bool {
    p.piece_on(from) matches Some(pc) && pc.piece_type == PieceType::Pawn && to.0 as int == last_rank(
        pc.color,
    )
}

/// The move is a pawn's two-rank advance.
pub open spec fn double_push(p: Position, from: Square, to: Square) -> bool {
    p.piece_on(from) matches Some(pc) && pc.piece_type == PieceType::Pawn && (from.0 as int
        == to.0 as int + 2 || to.0 as int == from.0 as int + 2)
}

/// The board after the move, before the piece itself is relocated: the rook
/// of a castling move is relocated, or the pawn taken en passant removed.
pub open spec fn board_before_relocation(p: Position, from: Square, to: Square) -> [Option<Piece>; 64] {
    let r1 = from.0 as int;
    if castles_kingside(p, from, to) {
        board_set(board_set(p.board, r1, 5, p.at(r1, 7)), r1, 7, None)
    } else if castles_queenside(p, from, to) {
        board_set(board_set(p.board, r1, 3, p.at(r1, 0)), r1, 0, None)
    } else if takes_en_passant(p, from, to) {
        let pc = p.piece_on(from)->0;
        board_set(p.board, to.0 as int - forward(pc.color), to.1 as int, None)
    } else {
        p.board
    }
}

/// The position after the piece on `from` moves to `to`, with all the
/// bookkeeping of a move: castling rook relocated, pawn taken en passant
/// removed, castling rights updated, en-passant target set only by a double
/// advance, half-move clock reset by a capture or a pawn move and advanced
/// otherwise, full-move number advanced after Black's move (both clocks stop
/// at `u32::MAX`), side to move flipped. A pawn reaching its last rank
/// becomes a queen when `auto_promote` holds and leaves a promotion pending
/// otherwise.
pub open spec fn apply_move_spec(p: Position, from: Square, to: Square, auto_promote: bool) -> Position {
    let piece = p.piece_on(from)->0;
    let captured = p.piece_on(to);
    let moved = if promotes(p, from, to) && auto_promote {
        Piece { piece_type: PieceType::Queen, color: piece.color }
    } else {
        piece
    };
    let b = board_before_relocation(p, from, to);
    Position {
        board: board_set(board_set(b, to.0 as int, to.1 as int, Some(moved)), from.0 as int, from.1 as int, None),
        turn: opposite_spec(p.turn),
        castling: rights_after_move(p.castling, piece, from, to, captured),
        en_passant_square: if double_push(p, from, to) {
            Some((((from.0 + to.0) / 2) as usize, from.1))
        } else {
            None
        },
        half_moves: if captured is Some || piece.piece_type == PieceType::Pawn {
            0
        } else {
            saturating_inc(p.half_moves)
        },
        full_moves: if p.turn == Color::Black {
            saturating_inc(p.full_moves)
        } else {
            p.full_moves
        },
        promotion_square: if promotes(p, from, to) && !auto_promote {
            Some(to)
        } else {
            None
        },
    }
}

fn clear_right(rights: CastlingRights, color: Color, kingside: bool) -> (r: CastlingRights)
    ensures
        r == without_right(rights, color, kingside),
{
    let mut r = rights;
    match (color, kingside) {
        (Color::White, true) => r.white_kingside = false,
        (Color::White, false) => r.white_queenside = false,
        (Color::Black, true) => r.black_kingside = false,
        (Color::Black, false) => r.black_queenside = false,
    }
    r
}

fn clear_rook_right(rights: CastlingRights, sq: Square, q: Option<Piece>) -> (r: CastlingRights)
    ensures
        r == rights_after_rook(rights, sq, q),
{
    if let Some(pc) = q {
        if pc.piece_type == PieceType::Rook {
            let home: usize = match pc.color {
                Color::White => 7,
                Color::Black => 0,
            };
            if sq.0 == home {
                if sq.1 == 0 {
                    return clear_right(rights, pc.color, false);
                } else if sq.1 == 7 {
                    return clear_right(rights, pc.color, true);
                }
            }
        }
    }
    rights
}

/// The piece on (r, c) in the standard starting position.
pub open spec fn start_piece(r: int, c: int) -> Option<Piece> {
    let back = if c == 0 || c == 7 {
        PieceType::Rook
    } else if c == 1 || c == 6 {
        PieceType::Knight
    } else if c == 2 || c == 5 {
        PieceType::Bishop
    } else if c == 3 {
        PieceType::Queen
    } else {
        PieceType::King
    };
    if r == 0 {
        Some(Piece { piece_type: back, color: Color::Black })
    } else if r == 1 {
        Some(Piece { piece_type: PieceType::Pawn, color: Color::Black })
    } else if r == 6 {
        Some(Piece { piece_type: PieceType::Pawn, color: Color::White })
    } else if r == 7 {
        Some(Piece { piece_type: back, color: Color::White })
    } else {
        None
    }
}

/// The standard starting position: White to move, all castling rights, no
/// en-passant target, clocks 0 and 1.
pub open spec fn is_start_position(p: Position) -> bool {
    &&& forall|r: int, c: int| on_board(r, c) ==> #[trigger] p.at(r, c) == start_piece(r, c)
    &&& p.turn == Color::White
    &&& p.castling == CastlingRights {
        white_kingside: true,
        white_queenside: true,
        black_kingside: true,
        black_queenside: true,
    }
    &&& p.en_passant_square is None
    &&& p.half_moves == 0
    &&& p.full_moves == 1
    &&& p.promotion_square is None
}

impl Position {
    /// The en-passant target and the pending promotion, if any, are squares
    /// of the board.
    pub open spec fn wf(self) -> bool {
        &&& (self.en_passant_square matches Some(sq) ==> valid_square(sq))
        &&& (self.promotion_square matches Some(sq) ==> valid_square(sq))
    }

    /// The occupant of rank index `r`, file index `c`.
    pub open spec fn at(self, r: int, c: int) -> Option<Piece> {
        self.board@[sq_index(r, c)]
    }

    /// The occupant of a square.
    pub open spec fn piece_on(self, sq: Square) -> Option<Piece> {
        self.at(sq.0 as int, sq.1 as int)
    }

    /// The occupant of (i, j).
    pub fn get(&self, i: usize, j: usize) -> (r: Option<Piece>)
        requires
            i < 8,
            j < 8,
        ensures
            r == self.at(i as int, j as int),
    {
        self.board[i * 8 + j]
    }

    /// The position after the piece on `from` moves to `to`, without any
    /// check of legality.
    pub fn apply_move(&self, from: Square, to: Square, auto_promote: bool) -> (r: Position)
        requires
            self.wf(),
            valid_square(from),
            valid_square(to),
            self.piece_on(from) is Some,
        ensures
            r == apply_move_spec(*self, from, to, auto_promote),
            r.wf(),
    {
        let (i1, j1) = from;
        let (i2, j2) = to;
        let piece = self.get(i1, j1).unwrap();
        let captured = self.get(i2, j2);
        let mut next = *self;
        let is_pawn = piece.piece_type == PieceType::Pawn;

        next.half_moves = if captured.is_some() || is_pawn {
            0
        } else if self.half_moves < u32::MAX {
            self.half_moves + 1
        } else {
            self.half_moves
        };

        let mut rights = if piece.piece_type == PieceType::King {
            clear_right(clear_right(self.castling, piece.color, true), piece.color, false)
        } else {
            clear_rook_right(self.castling, from, Some(piece))
        };
        rights = clear_rook_right(rights, to, captured);
        next.castling = rights;

        if piece.piece_type == PieceType::King && j2 == j1 + 2 {
            next.board[i1 * 8 + 5] = self.board[i1 * 8 + 7];
            next.board[i1 * 8 + 7] = None;
        } else if piece.piece_type == PieceType::King && j1 == j2 + 2 {
            next.board[i1 * 8 + 3] = self.board[i1 * 8];
            next.board[i1 * 8] = None;
        } else if is_pawn {
            if let Some(ep) = self.en_passant_square {
                if ep.0 == i2 && ep.1 == j2 {
                    match (can_en_passant(i2), piece.color) {
                        (Some(Color::White), Color::White) => next.board[(i2 + 1) * 8 + j2] = None,
                        (Some(Color::Black), Color::Black) => next.board[(i2 - 1) * 8 + j2] = None,
                        _ => {},
                    }
                }
            }
        }

        let last: usize = match piece.color {
            Color::White => 0,
            Color::Black => 7,
        };
        let promotion = is_pawn && i2 == last;
        let moved = if promotion && auto_promote {
            Piece::new(PieceType::Queen, piece.color)
        } else {
            piece
        };
        next.board[i2 * 8 + j2] = Some(moved);
        next.board[i1 * 8 + j1] = None;
        next.promotion_square = if promotion && !auto_promote {
            Some(to)
        } else {
            None
        };
        next.en_passant_square = if is_pawn && (i1 == i2 + 2 || i2 == i1 + 2) {
            Some(((i1 + i2) / 2, j1))
        } else {
            None
        };
        if self.turn == Color::Black && self.full_moves < u32::MAX {
            next.full_moves = self.full_moves + 1;
        }
        next.turn = self.turn.opposite();
        proof {
            let spec_r = apply_move_spec(*self, from, to, auto_promote);
            assert(next.board =~= spec_r.board);
        }
        next
    }

    /// The standard starting position.
    pub fn starting() -> (r: Position)
        ensures
            is_start_position(r),
            r.wf(),
    {
        let mut board: [Option<Piece>; 64] = [None; 64];
        let back = [
            PieceType::Rook,
            PieceType::Knight,
            PieceType::Bishop,
            PieceType::Queen,
            PieceType::King,
            PieceType::Bishop,
            PieceType::Knight,
            PieceType::Rook,
        ];
        let mut c: usize = 0;
        while c < 8
            invariant
                c <= 8,
                back@ == seq![
                    PieceType::Rook,
                    PieceType::Knight,
                    PieceType::Bishop,
                    PieceType::Queen,
                    PieceType::King,
                    PieceType::Bishop,
                    PieceType::Knight,
                    PieceType::Rook,
                ],
                forall|r: int, cc: int|
                    0 <= r < 8 && 0 <= cc < c ==> #[trigger] board@[sq_index(r, cc)] == start_piece(r, cc),
                forall|r: int, cc: int|
                    0 <= r < 8 && c <= cc < 8 ==> #[trigger] board@[sq_index(r, cc)] is None,
            decreases 8 - c,
        {
            board[c] = Some(Piece::new(back[c], Color::Black));
            board[8 + c] = Some(Piece::new(PieceType::Pawn, Color::Black));
            board[48 + c] = Some(Piece::new(PieceType::Pawn, Color::White));
            board[56 + c] = Some(Piece::new(back[c], Color::White));
            c += 1;
        }
        Position {
            board,
            turn: Color::White,
            castling: CastlingRights {
                white_kingside: true,
                white_queenside: true,
                black_kingside: true,
                black_queenside: true,
            },
            en_passant_square: None,
            half_moves: 0,
            full_moves: 1,
            promotion_square: None,
        }
    }
}

} // verus!
