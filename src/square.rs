//! Squares: board indices, algebraic names and the conversions between them.

use vstd::prelude::*;
use vstd::string::StringExecFns;
use crate::piece::Color;

verus! {

/// A square as (rank index, file index); (0, 0) is a8 and (7, 7) is h1.
pub type Square = (usize, usize);

/// Rank and file indices both within 0..8.
pub open spec fn on_board(r: int, c: int) -> bool {
    0 <= r < 8 && 0 <= c < 8
}

/// A square of the board.
pub open spec fn valid_square(sq: Square) -> bool {
    on_board(sq.0 as int, sq.1 as int)
}

/// The file letter of a file index.
pub open spec fn file_letter(c: int) -> char {
    if c == 0 { 'a' }
    else if c == 1 { 'b' }
    else if c == 2 { 'c' }
    else if c == 3 { 'd' }
    else if c == 4 { 'e' }
    else if c == 5 { 'f' }
    else if c == 6 { 'g' }
    else { 'h' }
}

/// The rank digit of a rank index (index 0 is rank 8).
pub open spec fn rank_digit(r: int) -> char {
    if r == 0 { '8' }
    else if r == 1 { '7' }
    else if r == 2 { '6' }
    else if r == 3 { '5' }
    else if r == 4 { '4' }
    else if r == 5 { '3' }
    else if r == 6 { '2' }
    else { '1' }
}

/// The file index of a file letter, if it is one.
pub open spec fn file_of_letter(ch: char) -> Option<usize> {
    if 'a' <= ch <= 'h' { Some((ch as u32 - 'a' as u32) as usize) } else { None }
}

/// The rank index of a rank digit, if it is one.
pub open spec fn rank_of_digit(ch: char) -> Option<usize> {
    if '1' <= ch <= '8' { Some(('8' as u32 - ch as u32) as usize) } else { None }
}

/// The algebraic name of a square, such as "e4".
pub open spec fn square_name(sq: Square) -> Seq<char> {
    seq![file_letter(sq.1 as int), rank_digit(sq.0 as int)]
}

/// The square that a two-character algebraic name denotes, if any.
pub open spec fn square_of_name(s: Seq<char>) -> Option<Square> {
    if s.len() == 2 && file_of_letter(s[0]) is Some && rank_of_digit(s[1]) is Some {
        Some((rank_of_digit(s[1])->0, file_of_letter(s[0])->0))
    } else {
        None
    }
}

/// Naming a square and reading the name back gives the square.
pub proof fn lemma_square_name_round_trip(sq: Square)
    requires
        valid_square(sq),
    ensures
        square_of_name(square_name(sq)) == Some(sq),
{
}

/// Every name that denotes a square is the name of that square.
pub proof fn lemma_square_name_unique(s: Seq<char>)
    requires
        square_of_name(s) is Some,
    ensures
        valid_square(square_of_name(s)->0),
        square_name(square_of_name(s)->0) == s,
{
    let c0 = s[0];
    let c1 = s[1];
    assert(square_name(square_of_name(s)->0) =~= s);
}

/// Whether (i, j) lies on the board.
pub fn is_valid_pos(i: i32, j: i32) -> (r: bool)
    ensures
        r == on_board(i as int, j as int),
{
    i >= 0 && i <= 7 && j >= 0 && j <= 7
}

/// Whether both squares lie on the board.
pub fn is_valid_move(from: Square, to: Square) -> (r: bool)
    ensures
        r == (valid_square(from) && valid_square(to)),
{
    from.0 < 8 && from.1 < 8 && to.0 < 8 && to.1 < 8
}

/// The side whose pawns may capture en passant onto a square of the given
/// rank index: White onto rank 6, Black onto rank 3.
pub open spec fn en_passant_side(i: int) -> Option<Color> {
    if i == 2 {
        Some(Color::White)
    } else if i == 5 {
        Some(Color::Black)
    } else {
        None
    }
}

/// The side whose pawns may take en passant onto rank index `i`.
pub fn can_en_passant(i: usize) -> (r: Option<Color>)
    ensures
        r == en_passant_side(i as int),
{
    match i {
        2 => Some(Color::White),
        5 => Some(Color::Black),
        _ => None,
    }
}

/// The characters of a string.
pub fn chars_of(s: &str) -> (r: Vec<char>)
    ensures
        r@ == s@,
{
    let n = s.unicode_len();
    let mut v: Vec<char> = Vec::new();
    let mut i: usize = 0;
    while i < n
        invariant
            n == s@.len(),
            i <= n,
            v@ == s@.subrange(0, i as int),
        decreases n - i,
    {
        v.push(s.get_char(i));
        i += 1;
    }
    assert(v@ =~= s@);
    v
}

/// Relies on `FromIterator<char>` for `String`: the string holds the
/// characters in the order given.
#[verifier::external_body]
pub(crate) fn string_from_chars(v: &Vec<char>) -> (r: String)
    ensures
        r@ == v@,
{
    v.iter().collect()
}

/// A string holding the given message followed by the given text.
pub(crate) fn message(prefix: &str, detail: &str) -> (r: String) {
    let mut s = String::from_str(prefix);
    s.append(detail);
    s
}

/// The rank and file indices of a square given in algebraic notation.
pub fn alg_notation_to_indx(notation: &str) -> (r: Result<Square, String>)
    ensures
        r is Ok <==> square_of_name(notation@) is Some,
        r matches Ok(sq) ==> Some(sq) == square_of_name(notation@),
{
    let chr_vec = chars_of(notation);
    if chr_vec.len() != 2 {
        return Err(message("Invalid notation ", notation));
    }
    let col: usize = match chr_vec[0] {
        'a' => 0,
        'b' => 1,
        'c' => 2,
        'd' => 3,
        'e' => 4,
        'f' => 5,
        'g' => 6,
        'h' => 7,
        _ => return Err(message("Invalid file in ", notation)),
    };
    let row: usize = match chr_vec[1] {
        '8' => 0,
        '7' => 1,
        '6' => 2,
        '5' => 3,
        '4' => 4,
        '3' => 5,
        '2' => 6,
        '1' => 7,
        _ => return Err(message("Invalid rank in ", notation)),
    };
    Ok((row, col))
}

/// The algebraic notation of a square given by its indices.
pub fn indx_to_alg_notation(indx: Square) -> (r: Result<String, String>)
    ensures
        r is Ok <==> valid_square(indx),
        r matches Ok(s) ==> s@ == square_name(indx),
{
    let file: char = match indx.1 {
        0 => 'a',
        1 => 'b',
        2 => 'c',
        3 => 'd',
        4 => 'e',
        5 => 'f',
        6 => 'g',
        7 => 'h',
        _ => return Err(String::from_str("Invalid file index")),
    };
    let rank: char = match indx.0 {
        0 => '8',
        1 => '7',
        2 => '6',
        3 => '5',
        4 => '4',
        5 => '3',
        6 => '2',
        7 => '1',
        _ => return Err(String::from_str("Invalid rank index")),
    };
    let mut v: Vec<char> = Vec::new();
    v.push(file);
    v.push(rank);
    assert(v@ =~= square_name(indx));
    Ok(string_from_chars(&v))
}

} // verus!
