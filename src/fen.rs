//! The position exchange format: parsing and writing, and the proof that
//! writing then reading gives the position back.

use vstd::prelude::*;
use vstd::string::StringExecFns;
use crate::piece::{Color, Piece, piece_of_letter, piece_letter, get_piece, get_piece_notation};
use crate::position::{CastlingRights, Position};
use crate::square::{
    Square, square_of_name, square_name, alg_notation_to_indx, indx_to_alg_notation, message,
    chars_of, string_from_chars,
};

verus! {

/// The characters that separate fields.
pub open spec fn is_space(ch: char) -> bool {
    ch == ' ' || ch == '\t' || ch == '\n' || ch == '\r'
}

/// The whitespace-separated fields of `s`, where `cur` is the part of a
/// field already read.
pub open spec fn fields_from(s: Seq<char>, cur: Seq<char>) -> Seq<Seq<char>>
    decreases s.len(),
{
    if s.len() == 0 {
        if cur.len() > 0 {
            seq![cur]
        } else {
            seq![]
        }
    } else if is_space(s[0]) {
        (if cur.len() > 0 {
            seq![cur]
        } else {
            seq![]
        }) + fields_from(s.drop_first(), seq![])
    } else {
        fields_from(s.drop_first(), cur.push(s[0]))
    }
}

/// The whitespace-separated fields of `s`.
pub open spec fn fields(s: Seq<char>) -> Seq<Seq<char>> {
    fields_from(s, seq![])
}

/// The value of a decimal digit character.
pub open spec fn digit_value(ch: char) -> int {
    ch as int - '0' as int
}

/// A decimal digit character.
pub open spec fn is_digit(ch: char) -> bool {
    '0' <= ch <= '9'
}

/// The value of a string of decimal digits.
pub open spec fn digits_value(t: Seq<char>) -> nat
    decreases t.len(),
{
    if t.len() == 0 {
        0
    } else {
        (digits_value(t.drop_last()) * 10 + digit_value(t.last())) as nat
    }
}

/// A non-empty string of decimal digits whose value fits in a `u32`.
pub open spec fn number_of(t: Seq<char>) -> Option<u32> {
    if t.len() > 0 && (forall|k: int| 0 <= k < t.len() ==> is_digit(#[trigger] t[k]))
        && digits_value(t) <= u32::MAX {
        Some(digits_value(t) as u32)
    } else {
        None
    }
}

/// The side named by the active-side field.
pub open spec fn turn_of(t: Seq<char>) -> Option<Color> {
    if t == seq!['w'] {
        Some(Color::White)
    } else if t == seq!['b'] {
        Some(Color::Black)
    } else {
        None
    }
}

/// The castling rights named by the castling field: "-", or letters of
/// "KQkq" in any order.
pub open spec fn castling_of(t: Seq<char>) -> Option<CastlingRights> {
    if t == seq!['-'] {
        Some(
            CastlingRights {
                white_kingside: false,
                white_queenside: false,
                black_kingside: false,
                black_queenside: false,
            },
        )
    } else if forall|k: int|
        0 <= k < t.len() ==> (#[trigger] t[k] == 'K' || t[k] == 'Q' || t[k] == 'k' || t[k] == 'q') {
        Some(
            CastlingRights {
                white_kingside: t.contains('K'),
                white_queenside: t.contains('Q'),
                black_kingside: t.contains('k'),
                black_queenside: t.contains('q'),
            },
        )
    } else {
        None
    }
}

/// The en-passant field: `Some(None)` for "-", `Some(Some(sq))` for a
/// square's name, `None` otherwise.
pub open spec fn en_passant_of(t: Seq<char>) -> Option<Option<Square>> {
    if t == seq!['-'] {
        Some(None)
    } else if square_of_name(t) is Some {
        Some(square_of_name(t))
    } else {
        None
    }
}

/// `n` empty squares.
pub open spec fn empties(n: nat) -> Seq<Option<Piece>> {
    Seq::new(n, |k: int| None::<Piece>)
}

/// The squares described by the placement field `t`, given the squares
/// `sq` already read and the number `f` of them in the current rank: eight
/// ranks separated by '/', each of eight squares, digits standing for runs
/// of empty squares.
pub open spec fn placement_from(t: Seq<char>, sq: Seq<Option<Piece>>, f: int) -> Option<
    Seq<Option<Piece>>,
>
    decreases t.len(),
{
    if t.len() == 0 {
        if sq.len() == 64 && f == 8 {
            Some(sq)
        } else {
            None
        }
    } else {
        let ch = t[0];
        let rest = t.drop_first();
        if ch == '/' {
            if f == 8 && sq.len() < 64 {
                placement_from(rest, sq, 0)
            } else {
                None
            }
        } else if '1' <= ch <= '8' {
            if f + digit_value(ch) <= 8 {
                placement_from(rest, sq + empties(digit_value(ch) as nat), f + digit_value(ch))
            } else {
                None
            }
        } else if piece_of_letter(ch) is Some {
            if f < 8 {
                placement_from(rest, sq.push(piece_of_letter(ch)), f + 1)
            } else {
                None
            }
        } else {
            None
        }
    }
}

/// The 64 squares, from a8 in rank-major order, described by a placement
/// field.
pub open spec fn placement_of(t: Seq<char>) -> Option<Seq<Option<Piece>>> {
    placement_from(t, seq![], 0)
}

/// `s` is a well-formed exchange string: at least six fields, each of the
/// first six valid (further fields are ignored).
pub open spec fn fen_valid(s: Seq<char>) -> bool {
    let f = fields(s);
    &&& f.len() >= 6
    &&& placement_of(f[0]) is Some
    &&& turn_of(f[1]) is Some
    &&& castling_of(f[2]) is Some
    &&& en_passant_of(f[3]) is Some
    &&& number_of(f[4]) is Some
    &&& number_of(f[5]) is Some
}

/// `p` is the position that the well-formed exchange string `s` describes,
/// with no promotion pending.
pub open spec fn fen_describes(s: Seq<char>, p: Position) -> bool {
    let f = fields(s);
    &&& fen_valid(s)
    &&& placement_of(f[0]) == Some(p.board@)
    &&& turn_of(f[1]) == Some(p.turn)
    &&& castling_of(f[2]) == Some(p.castling)
    &&& en_passant_of(f[3]) == Some(p.en_passant_square)
    &&& number_of(f[4]) == Some(p.half_moves)
    &&& number_of(f[5]) == Some(p.full_moves)
    &&& p.promotion_square is None
}

/// The whitespace-separated fields of a string.
pub fn split_fields(s: &Vec<char>) -> (r: Vec<Vec<char>>)
    ensures
        r@.map_values(|v: Vec<char>| v@) == fields(s@),
{
    let mut out: Vec<Vec<char>> = Vec::new();
    let mut cur: Vec<char> = Vec::new();
    let mut k: usize = 0;
    assert(s@.subrange(0, s@.len() as int) =~= s@);
    assert(out@.map_values(|v: Vec<char>| v@) =~= Seq::<Seq<char>>::empty());
    assert(Seq::<Seq<char>>::empty() + fields(s@) =~= fields(s@));
    while k < s.len()
        invariant
            k <= s@.len(),
            out@.map_values(|v: Vec<char>| v@) + fields_from(s@.subrange(k as int, s@.len() as int), cur@)
                == fields(s@),
        decreases s@.len() - k,
    {
        let ghost rest = s@.subrange(k as int, s@.len() as int);
        let ghost before = out@.map_values(|v: Vec<char>| v@);
        assert(rest.drop_first() =~= s@.subrange(k + 1, s@.len() as int));
        let ch = s[k];
        if ch == ' ' || ch == '\t' || ch == '\n' || ch == '\r' {
            if cur.len() > 0 {
                let ghost c = cur@;
                let done = cur;
                out.push(done);
                cur = Vec::new();
                assert(out@.map_values(|v: Vec<char>| v@) =~= before + seq![c]);
                assert(before + (seq![c] + fields_from(rest.drop_first(), seq![])) =~= (before
                    + seq![c]) + fields_from(rest.drop_first(), seq![]));
            } else {
                assert(before + seq![] =~= before);
                assert(cur@ =~= seq![]);
                assert(seq![] + fields_from(rest.drop_first(), seq![]) =~= fields_from(rest.drop_first(), seq![]));
            }
        } else {
            cur.push(ch);
        }
        assert(out@.map_values(|v: Vec<char>| v@) + fields_from(s@.subrange(k + 1, s@.len() as int), cur@)
            == fields(s@));
        k += 1;
    }
    let ghost before = out@.map_values(|v: Vec<char>| v@);
    if cur.len() > 0 {
        let ghost c = cur@;
        out.push(cur);
        assert(out@.map_values(|v: Vec<char>| v@) =~= before + seq![c]);
    } else {
        assert(before + seq![] =~= before);
    }
    out
}

proof fn lemma_digits_value_prefix(t: Seq<char>, k: int)
    requires
        0 <= k <= t.len(),
        forall|m: int| 0 <= m < t.len() ==> is_digit(#[trigger] t[m]),
    ensures
        digits_value(t.subrange(0, k)) <= digits_value(t),
    decreases t.len(),
{
    if k < t.len() {
        let d = t.drop_last();
        assert(d.subrange(0, k) =~= t.subrange(0, k));
        lemma_digits_value_prefix(d, k);
    } else {
        assert(t.subrange(0, k) =~= t);
    }
}

/// The number in a field of decimal digits.
pub fn parse_number(t: &Vec<char>) -> (r: Option<u32>)
    ensures
        r == number_of(t@),
{
    if t.len() == 0 {
        return None;
    }
    let mut v: u64 = 0;
    let mut k: usize = 0;
    while k < t.len()
        invariant
            k <= t@.len(),
            forall|m: int| 0 <= m < k ==> is_digit(#[trigger] t@[m]),
            v as nat == digits_value(t@.subrange(0, k as int)),
            v <= u32::MAX,
        decreases t@.len() - k,
    {
        let ch = t[k];
        if !('0' <= ch && ch <= '9') {
            return None;
        }
        let d = (ch as u32 - '0' as u32) as u64;
        v = v * 10 + d;
        proof {
            let sub = t@.subrange(0, k + 1);
            assert(sub.drop_last() =~= t@.subrange(0, k as int));
        }
        if v > u32::MAX as u64 {
            proof {
                if forall|m: int| 0 <= m < t@.len() ==> is_digit(#[trigger] t@[m]) {
                    lemma_digits_value_prefix(t@, k + 1);
                }
            }
            return None;
        }
        k += 1;
    }
    assert(t@.subrange(0, t@.len() as int) =~= t@);
    Some(v as u32)
}


/// The 64 squares described by a placement field.
pub fn parse_placement(t: &Vec<char>) -> (r: Option<[Option<Piece>; 64]>)
    ensures
        r is None <==> placement_of(t@) is None,
        r matches Some(b) ==> placement_of(t@) == Some(b@),
{
    let mut sq: Vec<Option<Piece>> = Vec::new();
    let mut f: usize = 0;
    let ghost mut m: int = 0;
    let mut k: usize = 0;
    assert(t@.subrange(0, t@.len() as int) =~= t@);
    while k < t.len()
        invariant
            k <= t@.len(),
            f <= 8,
            0 <= m <= 7,
            sq@.len() == 8 * m + f,
            placement_of(t@) == placement_from(t@.subrange(k as int, t@.len() as int), sq@, f as int),
        decreases t@.len() - k,
    {
        let ghost rest = t@.subrange(k as int, t@.len() as int);
        assert(rest.drop_first() =~= t@.subrange(k + 1, t@.len() as int));
        let ch = t[k];
        if ch == '/' {
            if !(f == 8 && sq.len() < 64) {
                return None;
            }
            f = 0;
            proof {
                m = m + 1;
            }
        } else if '1' <= ch && ch <= '8' {
            let d = (ch as u32 - '0' as u32) as usize;
            if f + d > 8 {
                return None;
            }
            let ghost before = sq@;
            let mut e: usize = 0;
            while e < d
                invariant
                    e <= d,
                    sq@ == before + empties(e as nat),
                decreases d - e,
            {
                sq.push(None);
                assert(sq@ =~= before + empties((e + 1) as nat));
                e += 1;
            }
            f = f + d;
        } else {
            match get_piece(ch) {
                None => return None,
                Some(piece) => {
                    if f >= 8 {
                        return None;
                    }
                    sq.push(Some(piece));
                    f = f + 1;
                },
            }
        }
        k += 1;
    }
    if !(sq.len() == 64 && f == 8) {
        return None;
    }
    let mut board: [Option<Piece>; 64] = [None; 64];
    let mut i: usize = 0;
    while i < 64
        invariant
            i <= 64,
            sq@.len() == 64,
            forall|j: int| 0 <= j < i ==> board@[j] == sq@[j],
        decreases 64 - i,
    {
        board[i] = sq[i];
        i += 1;
    }
    assert(board@ =~= sq@);
    Some(board)
}

proof fn lemma_contains_push(s: Seq<char>, x: char, c: char)
    ensures
        s.push(x).contains(c) <==> (s.contains(c) || c == x),
{
    if s.push(x).contains(c) {
        let j = choose|j: int| 0 <= j < s.push(x).len() && s.push(x)[j] == c;
        if j < s.len() {
            assert(s[j] == c);
        }
    }
    if s.contains(c) {
        let j = choose|j: int| 0 <= j < s.len() && s[j] == c;
        assert(s.push(x)[j] == c);
    }
    if c == x {
        assert(s.push(x)[s.len() as int] == c);
    }
}

/// The castling rights named by a castling field.
pub fn parse_castling(t: &Vec<char>) -> (r: Option<CastlingRights>)
    ensures
        r == castling_of(t@),
{
    let mut rights = CastlingRights {
        white_kingside: false,
        white_queenside: false,
        black_kingside: false,
        black_queenside: false,
    };
    if t.len() == 1 && t[0] == '-' {
        assert(t@ =~= seq!['-']);
        return Some(rights);
    }
    let mut k: usize = 0;
    while k < t.len()
        invariant
            k <= t@.len(),
            !(t@.len() == 1 && t@[0] == '-'),
            forall|m: int| 0 <= m < k ==> (#[trigger] t@[m] == 'K' || t@[m] == 'Q' || t@[m] == 'k' || t@[m] == 'q'),
            rights.white_kingside == t@.subrange(0, k as int).contains('K'),
            rights.white_queenside == t@.subrange(0, k as int).contains('Q'),
            rights.black_kingside == t@.subrange(0, k as int).contains('k'),
            rights.black_queenside == t@.subrange(0, k as int).contains('q'),
        decreases t@.len() - k,
    {
        let ghost prev = t@.subrange(0, k as int);
        let ghost next = t@.subrange(0, k + 1);
        assert(next =~= prev.push(t@[k as int]));
        match t[k] {
            'K' => rights.white_kingside = true,
            'Q' => rights.white_queenside = true,
            'k' => rights.black_kingside = true,
            'q' => rights.black_queenside = true,
            _ => {
                assert(t@ != seq!['-']);
                return None;
            },
        }
        proof {
            lemma_contains_push(prev, t@[k as int], 'K');
            lemma_contains_push(prev, t@[k as int], 'Q');
            lemma_contains_push(prev, t@[k as int], 'k');
            lemma_contains_push(prev, t@[k as int], 'q');
        }
        k += 1;
    }
    assert(t@.subrange(0, t@.len() as int) =~= t@);
    proof {
        if t@ == seq!['-'] {
            assert(t@.len() == 1 && t@[0] == '-');
        }
    }
    Some(rights)
}

/// The position described by an exchange string.
pub fn parse_fen(fen_str: &str) -> (r: Result<Position, String>)
    ensures
        r is Ok <==> fen_valid(fen_str@),
        r matches Ok(p) ==> fen_describes(fen_str@, p) && p.wf(),
{
    let chars = chars_of(fen_str);
    let fen_fields = split_fields(&chars);
    let ghost fs = fields(fen_str@);
    assert(fen_fields@.len() == fs.len());
    if fen_fields.len() < 6 {
        return Err(String::from_str("Expected six fields"));
    }
    assert(fen_fields@[0]@ == fs[0]);
    assert(fen_fields@[1]@ == fs[1]);
    assert(fen_fields@[2]@ == fs[2]);
    assert(fen_fields@[3]@ == fs[3]);
    assert(fen_fields@[4]@ == fs[4]);
    assert(fen_fields@[5]@ == fs[5]);
    let board = match parse_placement(&fen_fields[0]) {
        Some(b) => b,
        None => return Err(String::from_str("Invalid piece placement field")),
    };
    let active = &fen_fields[1];
    let turn = if active.len() == 1 && active[0] == 'w' {
        assert(active@ =~= seq!['w']);
        Color::White
    } else if active.len() == 1 && active[0] == 'b' {
        assert(active@ =~= seq!['b']);
        Color::Black
    } else {
        return Err(String::from_str("Invalid active side field"));
    };
    let castling = match parse_castling(&fen_fields[2]) {
        Some(c) => c,
        None => return Err(String::from_str("Invalid castling field")),
    };
    let ep_field = &fen_fields[3];
    let en_passant_square = if ep_field.len() == 1 && ep_field[0] == '-' {
        assert(ep_field@ =~= seq!['-']);
        None
    } else {
        let name = string_from_chars(ep_field);
        match alg_notation_to_indx(name.as_str()) {
            Ok(sq) => Some(sq),
            Err(e) => return Err(message("Invalid en passant field: ", e.as_str())),
        }
    };
    let half_moves = match parse_number(&fen_fields[4]) {
        Some(n) => n,
        None => return Err(String::from_str("Invalid half-move clock field")),
    };
    let full_moves = match parse_number(&fen_fields[5]) {
        Some(n) => n,
        None => return Err(String::from_str("Invalid full-move number field")),
    };
    Ok(
        Position {
            board,
            turn,
            castling,
            en_passant_square,
            half_moves,
            full_moves,
            promotion_square: None,
        },
    )
}


/// The character of a decimal digit.
pub open spec fn digit_char(d: int) -> char {
    if d == 0 { '0' }
    else if d == 1 { '1' }
    else if d == 2 { '2' }
    else if d == 3 { '3' }
    else if d == 4 { '4' }
    else if d == 5 { '5' }
    else if d == 6 { '6' }
    else if d == 7 { '7' }
    else if d == 8 { '8' }
    else { '9' }
}

/// The decimal digits of `n`, without leading zeros.
pub open spec fn decimal(n: nat) -> Seq<char>
    decreases n,
{
    if n < 10 {
        seq![digit_char(n as int)]
    } else {
        decimal(n / 10).push(digit_char((n % 10) as int))
    }
}

/// The digit for a run of `e` empty squares, if any.
pub open spec fn run_text(e: int) -> Seq<char> {
    if e > 0 {
        seq![digit_char(e)]
    } else {
        seq![]
    }
}

/// The placement text of rank `r` from file `c` on, with `e` empty squares
/// just before `c` not yet written.
pub open spec fn rank_text(p: Position, r: int, c: int, e: int) -> Seq<char>
    decreases 8 - c,
{
    if c >= 8 {
        run_text(e)
    } else {
        match p.at(r, c) {
            None => rank_text(p, r, c + 1, e + 1),
            Some(q) => run_text(e) + seq![piece_letter(q)] + rank_text(p, r, c + 1, 0),
        }
    }
}

/// The placement text of the first `n` ranks, separated by '/'.
pub open spec fn placement_text(p: Position, n: int) -> Seq<char>
    decreases n,
{
    if n <= 1 {
        rank_text(p, 0, 0, 0)
    } else {
        placement_text(p, n - 1) + seq!['/'] + rank_text(p, n - 1, 0, 0)
    }
}

/// The active-side field.
pub open spec fn turn_text(c: Color) -> Seq<char> {
    match c {
        Color::White => seq!['w'],
        Color::Black => seq!['b'],
    }
}

/// `ch` when `b` holds, else nothing.
pub open spec fn flag_text(b: bool, ch: char) -> Seq<char> {
    if b {
        seq![ch]
    } else {
        seq![]
    }
}

/// The castling field: the letters of "KQkq" for the rights held, or "-".
pub open spec fn castling_text(c: CastlingRights) -> Seq<char> {
    let t = flag_text(c.white_kingside, 'K') + flag_text(c.white_queenside, 'Q') + flag_text(
        c.black_kingside,
        'k',
    ) + flag_text(c.black_queenside, 'q');
    if t.len() == 0 {
        seq!['-']
    } else {
        t
    }
}

/// The en-passant field: the target's name, or "-".
pub open spec fn en_passant_text(e: Option<Square>) -> Seq<char> {
    match e {
        None => seq!['-'],
        Some(sq) => square_name(sq),
    }
}

/// The exchange string of a position: placement, side to move, castling
/// rights, en-passant target, half-move clock and full-move number.
pub open spec fn fen_of(p: Position) -> Seq<char> {
    placement_text(p, 8) + seq![' '] + turn_text(p.turn) + seq![' '] + castling_text(p.castling)
        + seq![' '] + en_passant_text(p.en_passant_square) + seq![' '] + decimal(
        p.half_moves as nat,
    ) + seq![' '] + decimal(p.full_moves as nat)
}

fn digit_to_char(d: u32) -> (r: char)
    requires
        d < 10,
    ensures
        r == digit_char(d as int),
{
    match d {
        0 => '0',
        1 => '1',
        2 => '2',
        3 => '3',
        4 => '4',
        5 => '5',
        6 => '6',
        7 => '7',
        8 => '8',
        _ => '9',
    }
}

fn push_decimal(out: &mut Vec<char>, n: u32)
    ensures
        final(out)@ == old(out)@ + decimal(n as nat),
    decreases n,
{
    if n >= 10 {
        push_decimal(out, n / 10);
    }
    out.push(digit_to_char(n % 10));
    assert(final(out)@ =~= old(out)@ + decimal(n as nat));
}

fn push_all(out: &mut Vec<char>, t: &Vec<char>)
    ensures
        final(out)@ == old(out)@ + t@,
{
    let mut k: usize = 0;
    while k < t.len()
        invariant
            k <= t@.len(),
            out@ == old(out)@ + t@.subrange(0, k as int),
        decreases t@.len() - k,
    {
        out.push(t[k]);
        assert(out@ =~= old(out)@ + t@.subrange(0, k + 1));
        k += 1;
    }
    assert(t@.subrange(0, t@.len() as int) =~= t@);
}

fn push_rank(out: &mut Vec<char>, p: &Position, i: usize)
    requires
        i < 8,
    ensures
        final(out)@ == old(out)@ + rank_text(*p, i as int, 0, 0),
{
    let mut empty: u32 = 0;
    let mut j: usize = 0;
    while j < 8
        invariant
            j <= 8,
            i < 8,
            empty <= j,
            out@ + rank_text(*p, i as int, j as int, empty as int) == old(out)@ + rank_text(*p, i as int, 0, 0),
        decreases 8 - j,
    {
        let ghost before = out@;
        match p.get(i, j) {
            Some(piece) => {
                if empty != 0 {
                    out.push(digit_to_char(empty));
                }
                out.push(get_piece_notation(piece));
                assert(out@ =~= before + run_text(empty as int) + seq![piece_letter(piece)]);
                assert(before + (run_text(empty as int) + seq![piece_letter(piece)] + rank_text(*p, i as int, j + 1, 0))
                    =~= out@ + rank_text(*p, i as int, j + 1, 0));
                empty = 0;
            },
            None => {
                empty += 1;
            },
        }
        j += 1;
    }
    let ghost before = out@;
    if empty != 0 {
        out.push(digit_to_char(empty));
    }
    assert(out@ =~= before + run_text(empty as int));
}

fn push_placement(out: &mut Vec<char>, p: &Position)
    ensures
        final(out)@ == old(out)@ + placement_text(*p, 8),
{
    let mut i: usize = 0;
    while i < 8
        invariant
            i <= 8,
            i == 0 ==> out@ == old(out)@,
            i > 0 ==> out@ == old(out)@ + placement_text(*p, i as int),
        decreases 8 - i,
    {
        let ghost start = out@;
        if i != 0 {
            out.push('/');
        }
        push_rank(out, p, i);
        proof {
            if i == 0 {
                assert(out@ =~= old(out)@ + placement_text(*p, 1));
            } else {
                assert(out@ =~= old(out)@ + placement_text(*p, i + 1));
            }
        }
        i += 1;
    }
}

fn push_castling(out: &mut Vec<char>, c: CastlingRights)
    ensures
        final(out)@ == old(out)@ + castling_text(c),
{
    if c.white_kingside {
        out.push('K');
    }
    if c.white_queenside {
        out.push('Q');
    }
    if c.black_kingside {
        out.push('k');
    }
    if c.black_queenside {
        out.push('q');
    }
    if !(c.white_kingside || c.white_queenside || c.black_kingside || c.black_queenside) {
        out.push('-');
    }
    assert(final(out)@ =~= old(out)@ + castling_text(c));
}

fn push_en_passant(out: &mut Vec<char>, e: Option<Square>)
    requires
        e matches Some(sq) ==> crate::square::valid_square(sq),
    ensures
        final(out)@ == old(out)@ + en_passant_text(e),
{
    match e {
        None => {
            out.push('-');
            assert(final(out)@ =~= old(out)@ + en_passant_text(e));
        },
        Some(sq) => {
            let name = match indx_to_alg_notation(sq) {
                Ok(n) => n,
                Err(_) => String::new(),
            };
            let name_chars = chars_of(name.as_str());
            push_all(out, &name_chars);
        },
    }
}

/// The exchange string of a position.
pub fn fen_string(p: &Position) -> (r: String)
    requires
        p.wf(),
    ensures
        r@ == fen_of(*p),
{
    let mut out: Vec<char> = Vec::new();
    push_placement(&mut out, p);
    let ghost a = out@;
    out.push(' ');
    out.push(
        match p.turn {
            Color::White => 'w',
            Color::Black => 'b',
        },
    );
    out.push(' ');
    assert(out@ =~= a + seq![' '] + turn_text(p.turn) + seq![' ']);
    push_castling(&mut out, p.castling);
    out.push(' ');
    push_en_passant(&mut out, p.en_passant_square);
    out.push(' ');
    push_decimal(&mut out, p.half_moves);
    out.push(' ');
    push_decimal(&mut out, p.full_moves);
    assert(out@ =~= fen_of(*p));
    string_from_chars(&out)
}


/// `s` holds no separator character.
pub open spec fn no_space(s: Seq<char>) -> bool {
    forall|k: int| 0 <= k < s.len() ==> !is_space(#[trigger] s[k])
}

/// A field followed by a space is read as one field.
pub proof fn lemma_fields_word(x: Seq<char>, y: Seq<char>, cur: Seq<char>)
    requires
        no_space(x),
        cur.len() + x.len() > 0,
    ensures
        fields_from(x + seq![' '] + y, cur) == seq![cur + x] + fields_from(y, seq![]),
    decreases x.len(),
{
    let s = x + seq![' '] + y;
    if x.len() == 0 {
        assert(s.drop_first() =~= y);
        assert(cur + x =~= cur);
    } else {
        assert(s[0] == x[0]);
        assert(s.drop_first() =~= x.drop_first() + seq![' '] + y);
        lemma_fields_word(x.drop_first(), y, cur.push(x[0]));
        assert(cur.push(x[0]) + x.drop_first() =~= cur + x);
    }
}

/// A last field is read as one field.
pub proof fn lemma_fields_last(x: Seq<char>, cur: Seq<char>)
    requires
        no_space(x),
        cur.len() + x.len() > 0,
    ensures
        fields_from(x, cur) == seq![cur + x],
    decreases x.len(),
{
    if x.len() == 0 {
        assert(cur + x =~= cur);
    } else {
        lemma_fields_last(x.drop_first(), cur.push(x[0]));
        assert(cur.push(x[0]) + x.drop_first() =~= cur + x);
    }
}

proof fn lemma_digit_char(d: int)
    requires
        0 <= d <= 9,
    ensures
        is_digit(digit_char(d)),
        digit_value(digit_char(d)) == d,
        1 <= d <= 8 ==> '1' <= digit_char(d) <= '8',
{
}

/// The decimal text of a number reads back as that number.
pub proof fn lemma_decimal(n: nat)
    ensures
        decimal(n).len() > 0,
        forall|k: int| 0 <= k < decimal(n).len() ==> is_digit(#[trigger] decimal(n)[k]),
        no_space(decimal(n)),
        digits_value(decimal(n)) == n,
    decreases n,
{
    if n < 10 {
        lemma_digit_char(n as int);
        assert(seq![digit_char(n as int)].drop_last() =~= Seq::<char>::empty());
        assert(digits_value(Seq::<char>::empty()) == 0);
    } else {
        lemma_decimal(n / 10);
        lemma_digit_char((n % 10) as int);
        let d = decimal(n);
        assert(d.drop_last() =~= decimal(n / 10));
        assert(d.last() == digit_char((n % 10) as int));
        assert(digits_value(d) == digits_value(decimal(n / 10)) * 10 + digit_value(digit_char((n % 10) as int)));
        assert((n / 10) * 10 + n % 10 == n);
        assert forall|k: int| 0 <= k < d.len() implies is_digit(#[trigger] d[k]) by {
            if k < d.len() - 1 {
                assert(d[k] == decimal(n / 10)[k]);
            }
        }
    }
}

proof fn lemma_rank_text_shape(p: Position, r: int, c: int, e: int)
    requires
        0 <= e <= c <= 8,
    ensures
        no_space(rank_text(p, r, c, e)),
        (c < 8 || e > 0) ==> rank_text(p, r, c, e).len() > 0,
    decreases 8 - c,
{
    if c < 8 {
        lemma_rank_text_shape(p, r, c + 1, e + 1);
        lemma_rank_text_shape(p, r, c + 1, 0);
        if let Some(q) = p.at(r, c) {
            let t = run_text(e) + seq![piece_letter(q)] + rank_text(p, r, c + 1, 0);
            assert forall|k: int| 0 <= k < t.len() implies !is_space(#[trigger] t[k]) by {
                if k < run_text(e).len() {
                    lemma_digit_char(e);
                } else if k > run_text(e).len() {
                    assert(t[k] == rank_text(p, r, c + 1, 0)[k - run_text(e).len() - 1]);
                }
            }
        }
    } else if e > 0 {
        lemma_digit_char(e);
    }
}

proof fn lemma_placement_text_shape(p: Position, n: int)
    requires
        1 <= n <= 8,
    ensures
        no_space(placement_text(p, n)),
        placement_text(p, n).len() > 0,
    decreases n,
{
    lemma_rank_text_shape(p, n - 1, 0, 0);
    if n > 1 {
        lemma_placement_text_shape(p, n - 1);
        let a = placement_text(p, n - 1);
        let b = rank_text(p, n - 1, 0, 0);
        let t = a + seq!['/'] + b;
        assert forall|k: int| 0 <= k < t.len() implies !is_space(#[trigger] t[k]) by {
            if k < a.len() {
                assert(t[k] == a[k]);
            } else if k > a.len() {
                assert(t[k] == b[k - a.len() - 1]);
            }
        }
    }
}

/// Reading the text of rank `r` from file `c` on, with `e` empty squares
/// pending, appends the rest of the rank's squares.
proof fn lemma_rank_parse(
    p: Position,
    r: int,
    c: int,
    e: int,
    rest: Seq<char>,
    sq: Seq<Option<Piece>>,
)
    requires
        0 <= r < 8,
        0 <= e <= c <= 8,
        sq.len() == 8 * r + c - e,
        forall|j: int| c - e <= j < c ==> #[trigger] p.at(r, j) is None,
    ensures
        placement_from(rank_text(p, r, c, e) + rest, sq, c - e) == placement_from(
            rest,
            sq + p.board@.subrange(8 * r + c - e, 8 * r + 8),
            8,
        ),
    decreases 8 - c,
{
    let b = p.board@;
    if c == 8 {
        if e == 0 {
            assert(run_text(e) + rest =~= rest);
            assert(sq + b.subrange(8 * r + 8, 8 * r + 8) =~= sq);
        } else {
            lemma_digit_char(e);
            let s = seq![digit_char(e)] + rest;
            assert(s.drop_first() =~= rest);
            assert(empties(e as nat) =~= b.subrange(8 * r + 8 - e, 8 * r + 8)) by {
                assert forall|k: int| 0 <= k < e implies #[trigger] b.subrange(8 * r + 8 - e, 8 * r + 8)[k]
                    == None::<Piece> by {
                    assert(p.at(r, 8 - e + k) is None);
                }
            }
        }
    } else {
        match p.at(r, c) {
            None => {
                lemma_rank_parse(p, r, c + 1, e + 1, rest, sq);
            },
            Some(q) => {
                crate::piece::lemma_letter_round_trip(q);
                let l = piece_letter(q);
                let tail = rank_text(p, r, c + 1, 0);
                let sq2 = sq + empties(e as nat);
                let sq3 = sq2.push(Some(q));
                let after_run = seq![l] + tail + rest;
                assert(after_run.drop_first() =~= tail + rest);
                assert(placement_from(after_run, sq2, c) == placement_from(tail + rest, sq3, c + 1));
                if e > 0 {
                    lemma_digit_char(e);
                    let s = seq![digit_char(e)] + after_run;
                    assert(s.drop_first() =~= after_run);
                    assert(rank_text(p, r, c, e) + rest =~= s);
                } else {
                    assert(rank_text(p, r, c, e) + rest =~= after_run);
                    assert(sq2 =~= sq);
                }
                lemma_rank_parse(p, r, c + 1, 0, rest, sq3);
                assert(sq3 + b.subrange(8 * r + c + 1, 8 * r + 8) =~= sq + b.subrange(8 * r + c - e, 8 * r + 8))
                    by {
                    assert forall|k: int| 0 <= k < e implies #[trigger] b.subrange(8 * r + c - e, 8 * r + 8)[k]
                        == None::<Piece> by {
                        assert(p.at(r, c - e + k) is None);
                    }
                }
            },
        }
    }
}

proof fn lemma_placement_parse(p: Position, n: int, rest: Seq<char>)
    requires
        1 <= n <= 8,
    ensures
        placement_from(placement_text(p, n) + rest, seq![], 0) == placement_from(
            rest,
            p.board@.subrange(0, 8 * n),
            8,
        ),
    decreases n,
{
    if n == 1 {
        lemma_rank_parse(p, 0, 0, 0, rest, seq![]);
        assert(Seq::<Option<Piece>>::empty() + p.board@.subrange(0, 8) =~= p.board@.subrange(0, 8));
    } else {
        let a = placement_text(p, n - 1);
        let t = rank_text(p, n - 1, 0, 0);
        let rest2 = seq!['/'] + t + rest;
        assert(placement_text(p, n) + rest =~= a + rest2);
        lemma_placement_parse(p, n - 1, rest2);
        assert(rest2.drop_first() =~= t + rest);
        lemma_rank_parse(p, n - 1, 0, 0, rest, p.board@.subrange(0, 8 * (n - 1)));
        assert(p.board@.subrange(0, 8 * (n - 1)) + p.board@.subrange(8 * (n - 1), 8 * n)
            =~= p.board@.subrange(0, 8 * n));
    }
}

proof fn lemma_contains_flag(s: Seq<char>, b: bool, ch: char, x: char)
    ensures
        (s + flag_text(b, ch)).contains(x) <==> (s.contains(x) || (b && x == ch)),
{
    if b {
        assert(s + flag_text(b, ch) =~= s.push(ch));
        lemma_contains_push(s, ch, x);
    } else {
        assert(s + flag_text(b, ch) =~= s);
    }
}

proof fn lemma_castling_round_trip(c: CastlingRights)
    ensures
        castling_of(castling_text(c)) == Some(c),
        no_space(castling_text(c)),
        castling_text(c).len() > 0,
{
    let e = Seq::<char>::empty();
    let t1 = e + flag_text(c.white_kingside, 'K');
    let t2 = t1 + flag_text(c.white_queenside, 'Q');
    let t3 = t2 + flag_text(c.black_kingside, 'k');
    let t4 = t3 + flag_text(c.black_queenside, 'q');
    assert(t1 =~= flag_text(c.white_kingside, 'K'));
    assert(t4 =~= flag_text(c.white_kingside, 'K') + flag_text(c.white_queenside, 'Q') + flag_text(
        c.black_kingside,
        'k',
    ) + flag_text(c.black_queenside, 'q'));
    assert forall|x: char| t4.contains(x) <==> ((c.white_kingside && x == 'K') || (c.white_queenside
        && x == 'Q') || (c.black_kingside && x == 'k') || (c.black_queenside && x == 'q')) by {
        lemma_contains_flag(e, c.white_kingside, 'K', x);
        lemma_contains_flag(t1, c.white_queenside, 'Q', x);
        lemma_contains_flag(t2, c.black_kingside, 'k', x);
        lemma_contains_flag(t3, c.black_queenside, 'q', x);
    }
    assert forall|k: int| 0 <= k < t4.len() implies (#[trigger] t4[k] == 'K' || t4[k] == 'Q' || t4[k]
        == 'k' || t4[k] == 'q') by {
        assert(t4.contains(t4[k]));
    }
    if t4.len() > 0 {
        assert(t4 != seq!['-']) by {
            if t4 == seq!['-'] {
                assert(t4[0] == '-');
            }
        }
        assert(t4.contains('K') == c.white_kingside);
        assert(t4.contains('Q') == c.white_queenside);
        assert(t4.contains('k') == c.black_kingside);
        assert(t4.contains('q') == c.black_queenside);
    } else {
        assert(!t4.contains('K') && !t4.contains('Q') && !t4.contains('k') && !t4.contains('q'));
    }
}

#[verifier::rlimit(40)]
proof fn lemma_fen_fields(p: Position)
    requires
        p.wf(),
    ensures
        fields(fen_of(p)) == seq![
            placement_text(p, 8),
            turn_text(p.turn),
            castling_text(p.castling),
            en_passant_text(p.en_passant_square),
            decimal(p.half_moves as nat),
            decimal(p.full_moves as nat),
        ],
{
    let a = placement_text(p, 8);
    let b = turn_text(p.turn);
    let c = castling_text(p.castling);
    let d = en_passant_text(p.en_passant_square);
    let e = decimal(p.half_moves as nat);
    let f = decimal(p.full_moves as nat);
    let sp = seq![' '];
    let empty = Seq::<char>::empty();
    lemma_placement_text_shape(p, 8);
    lemma_castling_round_trip(p.castling);
    lemma_decimal(p.half_moves as nat);
    lemma_decimal(p.full_moves as nat);
    assert(no_space(d));
    let y4 = e + sp + f;
    let y3 = d + sp + y4;
    let y2 = c + sp + y3;
    let y1 = b + sp + y2;
    let x1 = a + sp + b;
    let x2 = x1 + sp + c;
    let x3 = x2 + sp + d;
    let x4 = x3 + sp + e;
    assert(fen_of(p) == x4 + sp + f);
    assert(x4 + sp + f =~= x3 + sp + y4);
    assert(x3 + sp + y4 =~= x2 + sp + y3);
    assert(x2 + sp + y3 =~= x1 + sp + y2);
    assert(x1 + sp + y2 =~= a + sp + y1);
    lemma_fields_word(a, y1, empty);
    lemma_fields_word(b, y2, empty);
    lemma_fields_word(c, y3, empty);
    lemma_fields_word(d, y4, empty);
    lemma_fields_word(e, f, empty);
    lemma_fields_last(f, empty);
    assert(empty + a =~= a);
    assert(empty + b =~= b);
    assert(empty + c =~= c);
    assert(empty + d =~= d);
    assert(empty + e =~= e);
    assert(empty + f =~= f);
    assert(fields(fen_of(p)) =~= seq![a, b, c, d, e, f]);
}

/// The exchange string of a position reads back as that position: it is
/// well formed and describes exactly the position (no promotion pending).
pub proof fn lemma_fen_round_trip(p: Position)
    requires
        p.wf(),
        p.promotion_square is None,
    ensures
        fen_valid(fen_of(p)),
        fen_describes(fen_of(p), p),
{
    let empty = Seq::<char>::empty();
    lemma_fen_fields(p);
    lemma_castling_round_trip(p.castling);
    lemma_decimal(p.half_moves as nat);
    lemma_decimal(p.full_moves as nat);
    let d = en_passant_text(p.en_passant_square);
    if let Some(sq) = p.en_passant_square {
        crate::square::lemma_square_name_round_trip(sq);
        assert(d != seq!['-']) by {
            assert(d.len() == 2);
        }
    }
    lemma_placement_parse(p, 8, empty);
    assert(placement_text(p, 8) + empty =~= placement_text(p, 8));
    assert(p.board@.subrange(0, 64) =~= p.board@);
    let fs = fields(fen_of(p));
    assert(placement_of(fs[0]) == Some(p.board@));
    assert(seq!['b'] != seq!['w']) by {
        assert(seq!['b'][0] != seq!['w'][0]);
    }
    assert(turn_of(fs[1]) == Some(p.turn));
    assert(castling_of(fs[2]) == Some(p.castling));
    assert(en_passant_of(fs[3]) == Some(p.en_passant_square));
    assert(number_of(fs[4]) == Some(p.half_moves));
    assert(number_of(fs[5]) == Some(p.full_moves));
}

} // verus!
