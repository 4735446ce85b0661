//! Sides, piece kinds and pieces, with their letters in the exchange format.

use vstd::prelude::*;

verus! {

/// The two sides.
#[derive(Clone, Copy, Debug, PartialEq, Eq, Hash, Structural)]
pub enum Color {
    White,
    Black,
}

/// The six kinds of chess pieces.
#[derive(Clone, Copy, Debug, PartialEq, Eq, Hash, Structural)]
pub enum PieceType {
    Pawn,
    Knight,
    Bishop,
    Rook,
    Queen,
    King,
}

/// A piece is its kind and its side; two pieces with the same kind and side
/// are indistinguishable.
#[derive(Clone, Copy, Debug, PartialEq, Eq, Hash, Structural)]
pub struct Piece {
    pub piece_type: PieceType,
    pub color: Color,
}

impl Piece {
    /// The piece of the given kind and side.
    pub fn new(piece_type: PieceType, color: Color) -> (r: Piece)
        ensures
            r.piece_type == piece_type,
            r.color == color,
    {
        Piece { piece_type, color }
    }
}

/// The other side.
pub open spec fn opposite_spec(c: Color) -> Color {
    match c {
        Color::White => Color::Black,
        Color::Black => Color::White,
    }
}

impl Color {
    /// The other side.
    pub fn opposite(&self) -> (r: Color)
        ensures
            r == opposite_spec(*self),
    {
        match self {
            Color::White => Color::Black,
            Color::Black => Color::White,
        }
    }
}

/// The upper-case letter of a kind in the exchange format.
pub open spec fn kind_letter(k: PieceType) -> char {
    match k {
        PieceType::Pawn => 'P',
        PieceType::Knight => 'N',
        PieceType::Bishop => 'B',
        PieceType::Rook => 'R',
        PieceType::Queen => 'Q',
        PieceType::King => 'K',
    }
}

/// The letter of a piece: upper case for White, lower case for Black.
pub open spec fn piece_letter(p: Piece) -> char {
    match p.color {
        Color::White => kind_letter(p.piece_type),
        Color::Black => lower_letter(kind_letter(p.piece_type)),
    }
}

/// The lower-case form of an upper-case ASCII letter.
pub open spec fn lower_letter(c: char) -> char {
    if 'A' <= c <= 'Z' {
        ((c as u32) + 32) as char
    } else {
        c
    }
}

/// The piece that a letter stands for, if any.
pub open spec fn piece_of_letter(c: char) -> Option<Piece> {
    if c == 'P' {
        Some(Piece { piece_type: PieceType::Pawn, color: Color::White })
    } else if c == 'N' {
        Some(Piece { piece_type: PieceType::Knight, color: Color::White })
    } else if c == 'B' {
        Some(Piece { piece_type: PieceType::Bishop, color: Color::White })
    } else if c == 'R' {
        Some(Piece { piece_type: PieceType::Rook, color: Color::White })
    } else if c == 'Q' {
        Some(Piece { piece_type: PieceType::Queen, color: Color::White })
    } else if c == 'K' {
        Some(Piece { piece_type: PieceType::King, color: Color::White })
    } else if c == 'p' {
        Some(Piece { piece_type: PieceType::Pawn, color: Color::Black })
    } else if c == 'n' {
        Some(Piece { piece_type: PieceType::Knight, color: Color::Black })
    } else if c == 'b' {
        Some(Piece { piece_type: PieceType::Bishop, color: Color::Black })
    } else if c == 'r' {
        Some(Piece { piece_type: PieceType::Rook, color: Color::Black })
    } else if c == 'q' {
        Some(Piece { piece_type: PieceType::Queen, color: Color::Black })
    } else if c == 'k' {
        Some(Piece { piece_type: PieceType::King, color: Color::Black })
    } else {
        None
    }
}

/// Reading back the letter of a piece gives the piece.
pub proof fn lemma_letter_round_trip(p: Piece)
    ensures
        piece_of_letter(piece_letter(p)) == Some(p),
{
}

/// Every letter that stands for a piece is the letter of that piece.
pub proof fn lemma_letter_unique(c: char)
    ensures
        piece_of_letter(c) matches Some(p) ==> piece_letter(p) == c,
{
}

/// The piece for a letter of the exchange format, or `None` for any other
/// character.
pub fn get_piece(chr: char) -> (r: Option<Piece>)
    ensures
        r == piece_of_letter(chr),
{
    match chr {
        'P' => Some(Piece::new(PieceType::Pawn, Color::White)),
        'N' => Some(Piece::new(PieceType::Knight, Color::White)),
        'B' => Some(Piece::new(PieceType::Bishop, Color::White)),
        'R' => Some(Piece::new(PieceType::Rook, Color::White)),
        'Q' => Some(Piece::new(PieceType::Queen, Color::White)),
        'K' => Some(Piece::new(PieceType::King, Color::White)),
        'p' => Some(Piece::new(PieceType::Pawn, Color::Black)),
        'n' => Some(Piece::new(PieceType::Knight, Color::Black)),
        'b' => Some(Piece::new(PieceType::Bishop, Color::Black)),
        'r' => Some(Piece::new(PieceType::Rook, Color::Black)),
        'q' => Some(Piece::new(PieceType::Queen, Color::Black)),
        'k' => Some(Piece::new(PieceType::King, Color::Black)),
        _ => None,
    }
}

/// The letter of a piece in the exchange format.
pub fn get_piece_notation(piece: Piece) -> (r: char)
    ensures
        r == piece_letter(piece),
{
    match piece.color {
        Color::White => match piece.piece_type {
            PieceType::Pawn => 'P',
            PieceType::Knight => 'N',
            PieceType::Bishop => 'B',
            PieceType::Rook => 'R',
            PieceType::Queen => 'Q',
            PieceType::King => 'K',
        },
        Color::Black => match piece.piece_type {
            PieceType::Pawn => 'p',
            PieceType::Knight => 'n',
            PieceType::Bishop => 'b',
            PieceType::Rook => 'r',
            PieceType::Queen => 'q',
            PieceType::King => 'k',
        },
    }
}

} // verus!
