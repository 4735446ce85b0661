//! A game: a position with its capture log and undo history, the public
//! operations on it, and the classification of its state.

use vstd::prelude::*;
use vstd::string::StringExecFns;
use crate::piece::{Color, Piece, PieceType, get_piece_notation, opposite_spec, piece_letter};
use crate::position::{Position, apply_move_spec, board_set, is_start_position};
use crate::movegen::{contains_square, in_check_spec};
use crate::legality::{
    all_legal_moves_spec, insufficient_material, legal_move_count, legal_moves_spec,
    lemma_legal_moves_valid, moves_view,
};
use crate::fen::{fen_describes, fen_of, fen_string, fen_valid, parse_fen};
use crate::square::{
    Square, alg_notation_to_indx, is_valid_move, square_of_name, string_from_chars, valid_square,
};

verus! {

/// Why a game ended in a draw.
#[derive(Clone, Copy, Debug, PartialEq, Eq, Structural)]
pub enum DrawState {
    Stalemate,
    InsufficientMaterial,
    FiftyMoveRule,
}

/// How a game was won; the side is the winner.
#[derive(Clone, Copy, Debug, PartialEq, Eq, Structural)]
pub enum WinState {
    Checkmate(Color),
}

/// The state of a game.
#[derive(Clone, Copy, Debug, PartialEq, Eq, Structural)]
pub enum GameState {
    InProgress,
    AwaitPromotion,
    Win(WinState),
    Draw(DrawState),
}

/// The state of a position, by strict priority: a pending promotion; no
/// legal move (checkmate if in check, else stalemate); the fifty-move rule;
/// insufficient material on both sides; otherwise in progress.
pub open spec fn state_spec(p: Position) -> GameState {
    if p.promotion_square is Some {
        GameState::AwaitPromotion
    } else if legal_move_count(p, p.turn) == 0 {
        if in_check_spec(p, p.turn) {
            GameState::Win(WinState::Checkmate(opposite_spec(p.turn)))
        } else {
            GameState::Draw(DrawState::Stalemate)
        }
    } else if p.half_moves >= 100 {
        GameState::Draw(DrawState::FiftyMoveRule)
    } else if insufficient_material(p, Color::White) && insufficient_material(p, Color::Black) {
        GameState::Draw(DrawState::InsufficientMaterial)
    } else {
        GameState::InProgress
    }
}

/// A position as it stood before a move, with the length the capture log had
/// then.
#[derive(Clone, Copy, Debug)]
pub struct Snapshot {
    pub position: Position,
    pub n_captures: usize,
}

/// A game: the current position, the log of captured pieces, and the
/// positions before each move still to be undone, oldest first.
#[derive(Clone, Debug)]
pub struct Game {
    position: Position,
    captures: Vec<Piece>,
    history: Vec<Snapshot>,
}

/// What a game holds, as mathematical values.
pub struct GameView {
    pub position: Position,
    pub captures: Seq<Piece>,
    pub history: Seq<Snapshot>,
}

impl View for Game {
    type V = GameView;

    closed spec fn view(&self) -> GameView {
        GameView { position: self.position, captures: self.captures@, history: self.history@ }
    }
}

/// The pieces of `s` whose side is `c`, in order.
pub open spec fn pieces_of(s: Seq<Piece>, c: Color) -> Seq<Piece>
    decreases s.len(),
{
    if s.len() == 0 {
        seq![]
    } else if s.last().color == c {
        pieces_of(s.drop_last(), c).push(s.last())
    } else {
        pieces_of(s.drop_last(), c)
    }
}

/// The move from `from` to `to` is legal in `p`.
pub open spec fn is_legal_move(p: Position, from: Square, to: Square) -> bool {
    valid_square(from) && legal_moves_spec(p, from).contains(to)
}

/// The game after the legal move from `from` to `to`: the position is
/// stored for undo, a piece on `to` joins the capture log, and the move is
/// applied.
pub open spec fn after_move(g: GameView, from: Square, to: Square, auto_promote: bool) -> GameView {
    GameView {
        position: apply_move_spec(g.position, from, to, auto_promote),
        captures: match g.position.piece_on(to) {
            Some(q) => g.captures.push(q),
            None => g.captures,
        },
        history: g.history.push(Snapshot { position: g.position, n_captures: g.captures.len() as usize }),
    }
}

/// The game after undoing the last move; unchanged when there is none.
pub open spec fn after_undo(g: GameView) -> GameView {
    if g.history.len() == 0 {
        g
    } else {
        let s = g.history.last();
        GameView {
            position: s.position,
            captures: g.captures.subrange(0, s.n_captures as int),
            history: g.history.drop_last(),
        }
    }
}

/// The position with the piece on `sq` replaced by one of kind `kind` and
/// the same side.
pub open spec fn with_kind_on(p: Position, sq: Square, kind: PieceType) -> Position {
    Position {
        board: match p.piece_on(sq) {
            Some(q) => board_set(p.board, sq.0 as int, sq.1 as int, Some(Piece { piece_type: kind, color: q.color })),
            None => p.board,
        },
        ..p
    }
}

/// The position after promoting the pending pawn to `kind`: that square
/// changes and the promotion is no longer pending.
pub open spec fn promoted(p: Position, kind: PieceType) -> Position {
    Position { promotion_square: None, ..with_kind_on(p, p.promotion_square->0, kind) }
}

/// The diagram of the first `n` files of rank `r`: each square's letter,
/// or '.' when empty, followed by a space.
pub open spec fn diagram_rank(p: Position, r: int, n: int) -> Seq<char>
    decreases n,
{
    if n <= 0 {
        seq![]
    } else {
        diagram_rank(p, r, n - 1) + seq![
            match p.at(r, n - 1) {
                Some(q) => piece_letter(q),
                None => '.',
            },
            ' ',
        ]
    }
}

/// The diagram of the first `n` ranks from the eighth down, one line each.
pub open spec fn diagram(p: Position, n: int) -> Seq<char>
    decreases n,
{
    if n <= 0 {
        seq![]
    } else {
        diagram(p, n - 1) + diagram_rank(p, n - 1, 8) + seq!['\n']
    }
}

impl Game {
    /// The position and every stored position are well formed, and the
    /// capture-log lengths stored for undo never decrease and never exceed
    /// the log.
    pub closed spec fn wf(&self) -> bool {
        &&& self.position.wf()
        &&& forall|k: int| 0 <= k < self.history@.len() ==> {
            &&& (#[trigger] self.history@[k]).position.wf()
            &&& self.history@[k].n_captures <= self.captures@.len()
        }
        &&& forall|k1: int, k2: int|
            0 <= k1 <= k2 < self.history@.len() ==> #[trigger] self.history@[k1].n_captures
                <= #[trigger] self.history@[k2].n_captures
    }

    /// A game at the given position, with no history.
    pub(crate) fn from_position(position: Position) -> (r: Game)
        requires
            position.wf(),
        ensures
            r.wf(),
            r@.position == position,
            r@.captures == Seq::<Piece>::empty(),
            r@.history == Seq::<Snapshot>::empty(),
    {
        Game { position, captures: Vec::new(), history: Vec::new() }
    }

    /// A game at the standard starting position.
    pub fn new_starting_pos() -> (r: Game)
        ensures
            r.wf(),
            is_start_position(r@.position),
            r@.captures == Seq::<Piece>::empty(),
            r@.history == Seq::<Snapshot>::empty(),
    {
        Game::from_position(Position::starting())
    }

    /// A game at the position described by an exchange string; an error
    /// when the string is malformed.
    pub fn from_fen(fen_str: &str) -> (r: Result<Game, String>)
        ensures
            r is Ok <==> fen_valid(fen_str@),
            r matches Ok(g) ==> {
                &&& g.wf()
                &&& fen_describes(fen_str@, g@.position)
                &&& g@.captures == Seq::<Piece>::empty()
                &&& g@.history == Seq::<Snapshot>::empty()
            },
    {
        let position = parse_fen(fen_str)?;
        Ok(Game::from_position(position))
    }

    /// The exchange string of the current position.
    pub fn to_fen(&self) -> (r: String)
        requires
            self.wf(),
        ensures
            r@ == fen_of(self@.position),
    {
        fen_string(&self.position)
    }

    /// A text diagram of the board, rank 8 first: one line per rank, each
    /// square's letter or '.' followed by a space.
    pub fn board_string(&self) -> (r: String)
        ensures
            r@ == diagram(self@.position, 8),
    {
        let mut out: Vec<char> = Vec::new();
        let mut i: usize = 0;
        while i < 8
            invariant
                i <= 8,
                out@ == diagram(self.position, i as int),
            decreases 8 - i,
        {
            let ghost start = out@;
            let mut j: usize = 0;
            while j < 8
                invariant
                    i < 8,
                    j <= 8,
                    out@ == start + diagram_rank(self.position, i as int, j as int),
                decreases 8 - j,
            {
                match self.position.get(i, j) {
                    Some(piece) => out.push(get_piece_notation(piece)),
                    None => out.push('.'),
                }
                out.push(' ');
                assert(out@ =~= start + diagram_rank(self.position, i as int, j + 1));
                j += 1;
            }
            out.push('\n');
            assert(out@ =~= diagram(self.position, i + 1));
            i += 1;
        }
        string_from_chars(&out)
    }

    /// The piece on the square with the given indices.
    pub fn piece_at_array_index(&self, indx: Square) -> (r: Result<Option<Piece>, String>)
        ensures
            r is Ok <==> valid_square(indx),
            r matches Ok(q) ==> q == self@.position.piece_on(indx),
    {
        if indx.0 < 8 && indx.1 < 8 {
            Ok(self.position.get(indx.0, indx.1))
        } else {
            Err(String::from_str("Invalid index"))
        }
    }

    /// The piece on the square given in algebraic notation.
    pub fn piece_at_alg_notation(&self, notation: &str) -> (r: Result<Option<Piece>, String>)
        ensures
            r is Ok <==> square_of_name(notation@) is Some,
            r matches Ok(q) ==> q == self@.position.piece_on(square_of_name(notation@)->0),
    {
        let (i, j) = alg_notation_to_indx(notation)?;
        Ok(self.position.get(i, j))
    }

    /// Moves the piece on `from` to `to` when the move is legal, keeping the
    /// prior position for undo.
    fn make_move_with_index(&mut self, from: Square, to: Square, auto_promote: bool) -> (r: bool)
        requires
            old(self).wf(),
            valid_square(from),
            valid_square(to),
        ensures
            final(self).wf(),
            r == is_legal_move(old(self)@.position, from, to),
            r ==> final(self)@ == after_move(old(self)@, from, to, auto_promote),
            !r ==> final(self)@ == old(self)@,
    {
        let legal = self.position.legal_moves_at(from.0, from.1);
        if !contains_square(&legal, to) {
            return false;
        }
        assert(self.position.piece_on(from) is Some);
        let snapshot = Snapshot { position: self.position, n_captures: self.captures.len() };
        self.history.push(snapshot);
        if let Some(piece) = self.position.get(to.0, to.1) {
            self.captures.push(piece);
        }
        self.position = self.position.apply_move(from, to, auto_promote);
        proof {
            let g = final(self)@;
            assert(self.history@.last() == snapshot);
        }
        assert(self@ == after_move(old(self)@, from, to, auto_promote));
        true
    }

    /// Plays a move given in algebraic notation. `Ok(false)` when the move
    /// is not legal; an error when a square's notation is invalid.
    pub fn make_move(&mut self, from: &str, to: &str, auto_promote: bool) -> (r: Result<bool, String>)
        requires
            old(self).wf(),
        ensures
            final(self).wf(),
            r is Err <==> (square_of_name(from@) is None || square_of_name(to@) is None),
            r matches Ok(b) ==> {
                let f = square_of_name(from@)->0;
                let t = square_of_name(to@)->0;
                &&& b == is_legal_move(old(self)@.position, f, t)
                &&& b ==> final(self)@ == after_move(old(self)@, f, t, auto_promote)
                &&& !b ==> final(self)@ == old(self)@
            },
            r is Err ==> final(self)@ == old(self)@,
    {
        let from = alg_notation_to_indx(from)?;
        let to = alg_notation_to_indx(to)?;
        Ok(self.make_move_with_index(from, to, auto_promote))
    }

    /// Plays a move given by square indices. `Ok(false)` when an index is off
    /// the board or the move is not legal.
    pub fn make_move_array_index(
        &mut self,
        from: Square,
        to: Square,
        auto_promote: bool,
    ) -> (r: Result<bool, String>)
        requires
            old(self).wf(),
        ensures
            final(self).wf(),
            r is Ok,
            r->Ok_0 == (is_legal_move(old(self)@.position, from, to) && valid_square(to)),
            r->Ok_0 ==> final(self)@ == after_move(old(self)@, from, to, auto_promote),
            !r->Ok_0 ==> final(self)@ == old(self)@,
    {
        if is_valid_move(from, to) {
            return Ok(self.make_move_with_index(from, to, auto_promote));
        }
        proof {
            if valid_square(from) && legal_moves_spec(self.position, from).contains(to) {
                lemma_legal_moves_valid(self.position, from);
            }
        }
        Ok(false)
    }

    /// Replaces the pawn awaiting promotion by a piece of the given kind and
    /// the same side. Any kind is accepted; `false`, with nothing changed,
    /// when no promotion is pending.
    pub fn promote_to_piece(&mut self, piece_type: PieceType) -> (r: bool)
        requires
            old(self).wf(),
        ensures
            final(self).wf(),
            r == (old(self)@.position.promotion_square is Some),
            r ==> final(self)@ == (GameView {
                position: promoted(old(self)@.position, piece_type),
                ..old(self)@
            }),
            !r ==> final(self)@ == old(self)@,
    {
        match self.position.promotion_square {
            Some(sq) => {
                self.promote(sq, piece_type);
                self.position.promotion_square = None;
                assert(self.position.board =~= promoted(old(self)@.position, piece_type).board);
                true
            },
            None => false,
        }
    }

    fn promote(&mut self, indx: Square, piece_type: PieceType)
        requires
            old(self).wf(),
            valid_square(indx),
        ensures
            final(self).captures == old(self).captures,
            final(self).history == old(self).history,
            final(self).position == with_kind_on(old(self).position, indx, piece_type),
    {
        let (i, j) = indx;
        if let Some(piece) = self.position.get(i, j) {
            self.position.board[i * 8 + j] = Some(Piece::new(piece_type, piece.color));
        }
    }

    /// Goes back to the position before the last move, restoring the board,
    /// side to move, castling rights, en-passant target, clocks and capture
    /// log. Does nothing when no move is left to undo.
    pub fn undo_last_move(&mut self)
        requires
            old(self).wf(),
        ensures
            final(self).wf(),
            final(self)@ == after_undo(old(self)@),
    {
        match self.history.pop() {
            None => {},
            Some(prev) => {
                self.position = prev.position;
                self.captures.truncate(prev.n_captures);
                assert(self@ == after_undo(old(self)@));
            },
        }
    }

    /// The legal destinations of the piece on the square given in algebraic
    /// notation.
    pub fn get_legal_moves_alg_notation(&mut self, pos: &str) -> (r: Result<Vec<Square>, String>)
        requires
            old(self).wf(),
        ensures
            *final(self) == *old(self),
            r is Err <==> square_of_name(pos@) is None,
            r matches Ok(v) ==> v@ == legal_moves_spec(old(self)@.position, square_of_name(pos@)->0),
    {
        let indx = alg_notation_to_indx(pos)?;
        self.get_legal_moves_array_index(indx)
    }

    /// The legal destinations of the piece on the square with the given
    /// indices; empty for an empty square.
    pub fn get_legal_moves_array_index(&mut self, index: Square) -> (r: Result<Vec<Square>, String>)
        requires
            old(self).wf(),
        ensures
            *final(self) == *old(self),
            r is Err <==> !valid_square(index),
            r matches Ok(v) ==> v@ == legal_moves_spec(old(self)@.position, index),
    {
        if !(index.0 < 8 && index.1 < 8) {
            return Err(String::from_str("Invalid index"));
        }
        Ok(self.position.legal_moves_at(index.0, index.1))
    }

    /// Every square holding a piece of `color`, from a8 on, each with its
    /// legal destinations (possibly none).
    pub fn get_all_legal_moves(&mut self, color: Color) -> (r: Vec<(Square, Vec<Square>)>)
        requires
            old(self).wf(),
        ensures
            *final(self) == *old(self),
            moves_view(r@) == all_legal_moves_spec(old(self)@.position, color),
    {
        self.position.all_legal_moves(color)
    }

    /// Whether `color`'s king is attacked.
    pub fn in_check(&self, color: Color) -> (r: bool)
        ensures
            r == in_check_spec(self@.position, color),
    {
        self.position.in_check(color)
    }

    /// The state of the game.
    pub fn get_state(&mut self) -> (r: GameState)
        requires
            old(self).wf(),
        ensures
            *final(self) == *old(self),
            r == state_spec(old(self)@.position),
    {
        if self.position.promotion_square.is_some() {
            return GameState::AwaitPromotion;
        }
        let turn = self.position.turn;
        if self.position.num_of_legal_moves(turn) == 0 {
            if self.position.in_check(turn) {
                return GameState::Win(WinState::Checkmate(turn.opposite()));
            } else {
                return GameState::Draw(DrawState::Stalemate);
            }
        }
        if self.position.half_moves >= 100 {
            return GameState::Draw(DrawState::FiftyMoveRule);
        }
        if !self.position.can_win(Color::White) && !self.position.can_win(Color::Black) {
            return GameState::Draw(DrawState::InsufficientMaterial);
        }
        GameState::InProgress
    }

    /// The side to move.
    pub fn get_active_player(&self) -> (r: Color)
        ensures
            r == self@.position.turn,
    {
        self.position.turn
    }

    /// The pieces that `color` has captured, in the order taken: the
    /// opposing pieces of the capture log.
    pub fn get_captures(&self, color: Color) -> (r: Vec<Piece>)
        ensures
            r@ == pieces_of(self@.captures, opposite_spec(color)),
    {
        let enemy = color.opposite();
        let mut res: Vec<Piece> = Vec::new();
        let mut k: usize = 0;
        while k < self.captures.len()
            invariant
                k <= self.captures@.len(),
                enemy == opposite_spec(color),
                res@ == pieces_of(self.captures@.subrange(0, k as int), enemy),
            decreases self.captures@.len() - k,
        {
            let p = self.captures[k];
            if p.color == enemy {
                res.push(p);
            }
            proof {
                let sub = self.captures@.subrange(0, k + 1);
                assert(sub.drop_last() =~= self.captures@.subrange(0, k as int));
                assert(sub.last() == p);
            }
            k += 1;
        }
        assert(self.captures@.subrange(0, self.captures@.len() as int) =~= self.captures@);
        res
    }
}

} // verus!
