//! Pseudo-legal move generation per piece kind, attacked squares and check.

use vstd::prelude::*;
use vstd::string::StringExecFns;
use crate::piece::{Color, Piece, PieceType, opposite_spec};
use crate::position::Position;
use crate::square::{Square, on_board, valid_square, is_valid_pos, en_passant_side, can_en_passant};

verus! {

/// The direction vectors of the rook.
pub open spec fn rook_dirs() -> Seq<(i32, i32)> {
    seq![(1i32, 0i32), (-1i32, 0i32), (0i32, 1i32), (0i32, -1i32)]
}

/// The direction vectors of the bishop.
pub open spec fn bishop_dirs() -> Seq<(i32, i32)> {
    seq![(1i32, 1i32), (1i32, -1i32), (-1i32, 1i32), (-1i32, -1i32)]
}

/// The direction vectors of the queen and of the king.
pub open spec fn queen_dirs() -> Seq<(i32, i32)> {
    rook_dirs() + bishop_dirs()
}

/// The eight knight jumps.
pub open spec fn knight_dirs() -> Seq<(i32, i32)> {
    seq![
        (2i32, 1i32),
        (2i32, -1i32),
        (-2i32, 1i32),
        (-2i32, -1i32),
        (1i32, 2i32),
        (-1i32, 2i32),
        (1i32, -2i32),
        (-1i32, -2i32),
    ]
}

/// Each component of each direction is between -2 and 2.
pub open spec fn small_dirs(dirs: Seq<(i32, i32)>) -> bool {
    forall|k: int|
        0 <= k < dirs.len() ==> -2 <= #[trigger] dirs[k].0 <= 2 && -2 <= dirs[k].1 <= 2
}

/// The squares reached from (r, c) by stepping along (dr, dc) at most
/// `steps` times: the walk stops on leaving the board, includes an enemy
/// piece's square and stops there, and at a piece of `color`'s own side
/// stops, including that square only in attack mode.
pub open spec fn ray(
    p: Position,
    color: Color,
    r: int,
    c: int,
    dr: int,
    dc: int,
    steps: nat,
    attack: bool,
) -> Seq<Square>
    decreases steps,
{
    if steps == 0 {
        seq![]
    } else {
        let nr = r + dr;
        let nc = c + dc;
        if !on_board(nr, nc) {
            seq![]
        } else {
            let sq = (nr as usize, nc as usize);
            match p.at(nr, nc) {
                None => seq![sq] + ray(p, color, nr, nc, dr, dc, (steps - 1) as nat, attack),
                Some(q) => if q.color != color || attack {
                    seq![sq]
                } else {
                    seq![]
                },
            }
        }
    }
}

/// The rays along each direction in turn.
pub open spec fn rays(
    p: Position,
    color: Color,
    r: int,
    c: int,
    dirs: Seq<(i32, i32)>,
    steps: nat,
    attack: bool,
) -> Seq<Square>
    decreases dirs.len(),
{
    if dirs.len() == 0 {
        seq![]
    } else {
        rays(p, color, r, c, dirs.drop_last(), steps, attack) + ray(
            p,
            color,
            r,
            c,
            dirs.last().0 as int,
            dirs.last().1 as int,
            steps,
            attack,
        )
    }
}

/// The rank step of a pawn of the given side.
pub open spec fn forward(c: Color) -> int {
    match c {
        Color::White => -1,
        Color::Black => 1,
    }
}

/// The rank index from which a pawn may advance two squares.
pub open spec fn pawn_start_rank(c: Color) -> int {
    match c {
        Color::White => 6,
        Color::Black => 1,
    }
}

/// The rank index on which a side's king and rooks start.
pub open spec fn home_rank(c: Color) -> int {
    match c {
        Color::White => 7,
        Color::Black => 0,
    }
}

/// The rank index on which a side's pawns promote.
pub open spec fn last_rank(c: Color) -> int {
    match c {
        Color::White => 0,
        Color::Black => 7,
    }
}

/// The one-square sequence of (r, c) when `cond` holds, else nothing.
pub open spec fn sq_if(cond: bool, r: int, c: int) -> Seq<Square> {
    if cond {
        seq![(r as usize, c as usize)]
    } else {
        seq![]
    }
}

/// A pawn of `color` may move diagonally onto (r, c): an enemy piece stands
/// there, or (r, c) is the en-passant target on the rank where `color` may
/// take en passant.
pub open spec fn pawn_can_capture_spec(p: Position, r: int, c: int, color: Color) -> bool {
    ||| (p.at(r, c) matches Some(q) && q.color != color)
    ||| (p.en_passant_square == Some((r as usize, c as usize)) && en_passant_side(r) == Some(color))
}

/// Forward moves of a pawn: one square if empty, then two from the starting
/// rank if that square is empty too.
pub open spec fn pawn_pushes(p: Position, r: int, c: int, color: Color) -> Seq<Square> {
    let f = r + forward(color);
    let f2 = f + forward(color);
    if on_board(f, c) && p.at(f, c) is None {
        seq![(f as usize, c as usize)] + sq_if(r == pawn_start_rank(color) && p.at(f2, c) is None, f2, c)
    } else {
        seq![]
    }
}

/// Pseudo-legal moves of a pawn: pushes, then captures towards the higher
/// file, then towards the lower file.
pub open spec fn pawn_moves(p: Position, r: int, c: int, color: Color) -> Seq<Square> {
    let f = r + forward(color);
    pawn_pushes(p, r, c, color)
        + sq_if(on_board(f, c + 1) && pawn_can_capture_spec(p, f, c + 1, color), f, c + 1)
        + sq_if(on_board(f, c - 1) && pawn_can_capture_spec(p, f, c - 1, color), f, c - 1)
}

/// The two diagonal squares a pawn attacks, whatever stands on them.
pub open spec fn pawn_attacks(r: int, c: int, color: Color) -> Seq<Square> {
    let f = r + forward(color);
    sq_if(on_board(f, c + 1), f, c + 1) + sq_if(on_board(f, c - 1), f, c - 1)
}

/// The squares attacked by the piece on (r, c).
pub open spec fn attack_targets(p: Position, r: int, c: int) -> Seq<Square> {
    match p.at(r, c) {
        None => seq![],
        Some(q) => match q.piece_type {
            PieceType::Pawn => pawn_attacks(r, c, q.color),
            PieceType::Knight => rays(p, q.color, r, c, knight_dirs(), 1, true),
            PieceType::Bishop => rays(p, q.color, r, c, bishop_dirs(), 8, true),
            PieceType::Rook => rays(p, q.color, r, c, rook_dirs(), 8, true),
            PieceType::Queen => rays(p, q.color, r, c, queen_dirs(), 8, true),
            PieceType::King => rays(p, q.color, r, c, queen_dirs(), 1, true),
        },
    }
}

/// The attacks of `by`'s pieces on the first `n` squares of rank `r`.
pub open spec fn attacks_in_rank(p: Position, by: Color, r: int, n: int) -> Seq<Square>
    decreases n,
{
    if n <= 0 {
        seq![]
    } else {
        attacks_in_rank(p, by, r, n - 1) + if p.at(r, n - 1) matches Some(q) && q.color == by {
            attack_targets(p, r, n - 1)
        } else {
            seq![]
        }
    }
}

/// The attacks of `by`'s pieces on the first `n` ranks.
pub open spec fn attacks_upto(p: Position, by: Color, n: int) -> Seq<Square>
    decreases n,
{
    if n <= 0 {
        seq![]
    } else {
        attacks_upto(p, by, n - 1) + attacks_in_rank(p, by, n - 1, 8)
    }
}

/// Every square attacked by a piece of `by`, scanning the board from a8
/// (duplicates kept).
pub open spec fn attack_set(p: Position, by: Color) -> Seq<Square> {
    attacks_upto(p, by, 8)
}

/// Square (r, c) is attacked by a piece of `by`.
pub open spec fn is_attacked(p: Position, by: Color, r: int, c: int) -> bool {
    attack_set(p, by).contains((r as usize, c as usize))
}

/// The king of `color` on (r, c) may castle on the king's wing.
pub open spec fn can_castle_kingside(p: Position, r: int, c: int, color: Color) -> bool {
    let h = home_rank(color);
    let e = opposite_spec(color);
    &&& p.castling.kingside(color)
    &&& r == h
    &&& c == 4
    &&& p.at(h, 5) is None
    &&& p.at(h, 6) is None
    &&& p.at(h, 7) == Some(Piece { piece_type: PieceType::Rook, color })
    &&& !is_attacked(p, e, h, 4)
    &&& !is_attacked(p, e, h, 5)
    &&& !is_attacked(p, e, h, 6)
}

/// The king of `color` on (r, c) may castle on the queen's wing.
pub open spec fn can_castle_queenside(p: Position, r: int, c: int, color: Color) -> bool {
    let h = home_rank(color);
    let e = opposite_spec(color);
    &&& p.castling.queenside(color)
    &&& r == h
    &&& c == 4
    &&& p.at(h, 3) is None
    &&& p.at(h, 2) is None
    &&& p.at(h, 1) is None
    &&& p.at(h, 0) == Some(Piece { piece_type: PieceType::Rook, color })
    &&& !is_attacked(p, e, h, 4)
    &&& !is_attacked(p, e, h, 3)
    &&& !is_attacked(p, e, h, 2)
}

/// Pseudo-legal moves of a king: one step in each direction, then the
/// castling destinations.
pub open spec fn king_moves(p: Position, r: int, c: int, color: Color) -> Seq<Square> {
    rays(p, color, r, c, queen_dirs(), 1, false)
        + sq_if(can_castle_kingside(p, r, c, color), r, 6)
        + sq_if(can_castle_queenside(p, r, c, color), r, 2)
}

/// The pseudo-legal destinations of the piece on (r, c).
pub open spec fn move_targets(p: Position, r: int, c: int) -> Seq<Square> {
    match p.at(r, c) {
        None => seq![],
        Some(q) => match q.piece_type {
            PieceType::Pawn => pawn_moves(p, r, c, q.color),
            PieceType::Knight => rays(p, q.color, r, c, knight_dirs(), 1, false),
            PieceType::Bishop => rays(p, q.color, r, c, bishop_dirs(), 8, false),
            PieceType::Rook => rays(p, q.color, r, c, rook_dirs(), 8, false),
            PieceType::Queen => rays(p, q.color, r, c, queen_dirs(), 8, false),
            PieceType::King => king_moves(p, r, c, q.color),
        },
    }
}

/// The rook's directions as a vector.
pub fn rook_directions() -> (r: Vec<(i32, i32)>)
    ensures
        r@ == rook_dirs(),
{
    let mut v: Vec<(i32, i32)> = Vec::new();
    v.push((1, 0));
    v.push((-1, 0));
    v.push((0, 1));
    v.push((0, -1));
    assert(v@ =~= rook_dirs());
    v
}

/// The bishop's directions as a vector.
pub fn bishop_directions() -> (r: Vec<(i32, i32)>)
    ensures
        r@ == bishop_dirs(),
{
    let mut v: Vec<(i32, i32)> = Vec::new();
    v.push((1, 1));
    v.push((1, -1));
    v.push((-1, 1));
    v.push((-1, -1));
    assert(v@ =~= bishop_dirs());
    v
}

/// The queen's (and king's) directions as a vector.
pub fn queen_directions() -> (r: Vec<(i32, i32)>)
    ensures
        r@ == queen_dirs(),
{
    let mut v = rook_directions();
    let mut b = bishop_directions();
    v.append(&mut b);
    v
}

/// The knight's jumps as a vector.
pub fn knight_directions() -> (r: Vec<(i32, i32)>)
    ensures
        r@ == knight_dirs(),
{
    let mut v: Vec<(i32, i32)> = Vec::new();
    v.push((2, 1));
    v.push((2, -1));
    v.push((-2, 1));
    v.push((-2, -1));
    v.push((1, 2));
    v.push((-1, 2));
    v.push((1, -2));
    v.push((-1, -2));
    assert(v@ =~= knight_dirs());
    v
}

/// Whether a square occurs in a list of squares.
pub fn contains_square(v: &Vec<Square>, sq: Square) -> (r: bool)
    ensures
        r == v@.contains(sq),
{
    let mut k: usize = 0;
    while k < v.len()
        invariant
            k <= v@.len(),
            forall|m: int| 0 <= m < k ==> v@[m] != sq,
        decreases v@.len() - k,
    {
        if v[k].0 == sq.0 && v[k].1 == sq.1 {
            return true;
        }
        k += 1;
    }
    false
}

/// The side `color` is in check: one of its kings stands on a square that
/// the other side attacks.
pub open spec fn in_check_spec(p: Position, color: Color) -> bool {
    exists|r: int, c: int|
        on_board(r, c) && #[trigger] p.at(r, c) == Some(Piece { piece_type: PieceType::King, color })
            && is_attacked(p, opposite_spec(color), r, c)
}

/// Every square of `s` is on the board.
pub open spec fn all_valid(s: Seq<Square>) -> bool {
    forall|k: int| 0 <= k < s.len() ==> valid_square(#[trigger] s[k])
}

/// Every square of a ray is on the board.
pub proof fn lemma_ray_valid(
    p: Position,
    color: Color,
    r: int,
    c: int,
    dr: int,
    dc: int,
    steps: nat,
    attack: bool,
)
    ensures
        all_valid(ray(p, color, r, c, dr, dc, steps, attack)),
    decreases steps,
{
    if steps > 0 {
        lemma_ray_valid(p, color, r + dr, c + dc, dr, dc, (steps - 1) as nat, attack);
    }
}

/// Every square of a set of rays is on the board.
pub proof fn lemma_rays_valid(
    p: Position,
    color: Color,
    r: int,
    c: int,
    dirs: Seq<(i32, i32)>,
    steps: nat,
    attack: bool,
)
    ensures
        all_valid(rays(p, color, r, c, dirs, steps, attack)),
    decreases dirs.len(),
{
    if dirs.len() > 0 {
        lemma_rays_valid(p, color, r, c, dirs.drop_last(), steps, attack);
        lemma_ray_valid(p, color, r, c, dirs.last().0 as int, dirs.last().1 as int, steps, attack);
    }
}

/// Every pseudo-legal destination is a square of the board.
pub proof fn lemma_move_targets_valid(p: Position, r: int, c: int)
    requires
        on_board(r, c),
    ensures
        all_valid(move_targets(p, r, c)),
{
    if let Some(q) = p.at(r, c) {
        match q.piece_type {
            PieceType::Pawn => {},
            PieceType::Knight => lemma_rays_valid(p, q.color, r, c, knight_dirs(), 1, false),
            PieceType::Bishop => lemma_rays_valid(p, q.color, r, c, bishop_dirs(), 8, false),
            PieceType::Rook => lemma_rays_valid(p, q.color, r, c, rook_dirs(), 8, false),
            PieceType::Queen => lemma_rays_valid(p, q.color, r, c, queen_dirs(), 8, false),
            PieceType::King => lemma_rays_valid(p, q.color, r, c, queen_dirs(), 1, false),
        }
    }
}

impl Position {
    /// The squares along the given directions from the piece on (i, j), at
    /// most `max_moves` steps each.
    pub fn directional_pseudo_legal_moves(
        &self,
        i: usize,
        j: usize,
        directions: &Vec<(i32, i32)>,
        max_moves: u32,
        include_all_attacked: bool,
    ) -> (r: Vec<Square>)
        requires
            i < 8,
            j < 8,
            self.at(i as int, j as int) is Some,
            small_dirs(directions@),
        ensures
            r@ == rays(
                *self,
                self.at(i as int, j as int)->0.color,
                i as int,
                j as int,
                directions@,
                max_moves as nat,
                include_all_attacked,
            ),
    {
        let piece_color = self.get(i, j).unwrap().color;
        let ghost p = *self;
        let mut moves_vec: Vec<Square> = Vec::new();
        let mut d: usize = 0;
        while d < directions.len()
            invariant
                d <= directions@.len(),
                i < 8,
                j < 8,
                small_dirs(directions@),
                p == *self,
                piece_color == self.at(i as int, j as int)->0.color,
                moves_vec@ == rays(
                    p,
                    piece_color,
                    i as int,
                    j as int,
                    directions@.subrange(0, d as int),
                    max_moves as nat,
                    include_all_attacked,
                ),
            decreases directions@.len() - d,
        {
            let (d_i, d_j) = directions[d];
            let ghost start = moves_vec@;
            let ghost full = ray(
                p,
                piece_color,
                i as int,
                j as int,
                d_i as int,
                d_j as int,
                max_moves as nat,
                include_all_attacked,
            );
            let mut i_m: i32 = i as i32;
            let mut j_m: i32 = j as i32;
            let mut moves_made: u32 = 0;
            let mut done = false;
            while moves_made < max_moves && !done
                invariant
                    on_board(i_m as int, j_m as int),
                    moves_made <= max_moves,
                    p == *self,
                    piece_color == self.at(i as int, j as int)->0.color,
                    -2 <= d_i <= 2,
                    -2 <= d_j <= 2,
                    !done ==> start + full == moves_vec@ + ray(
                        p,
                        piece_color,
                        i_m as int,
                        j_m as int,
                        d_i as int,
                        d_j as int,
                        (max_moves - moves_made) as nat,
                        include_all_attacked,
                    ),
                    done ==> start + full == moves_vec@,
                decreases max_moves - moves_made + if done { 0int } else { 1int },
            {
                let ghost before = moves_vec@;
                let ni = i_m + d_i;
                let nj = j_m + d_j;
                if !is_valid_pos(ni, nj) {
                    done = true;
                    assert(before + seq![] =~= before);
                } else {
                    let ui = ni as usize;
                    let uj = nj as usize;
                    let ghost rest = ray(
                        p,
                        piece_color,
                        ni as int,
                        nj as int,
                        d_i as int,
                        d_j as int,
                        (max_moves - moves_made - 1) as nat,
                        include_all_attacked,
                    );
                    match self.get(ui, uj) {
                        None => {
                            assert(p.at(ni as int, nj as int) is None);
                            assert(on_board(i_m + d_i, j_m + d_j));
                            assert(ray(
                                p,
                                piece_color,
                                i_m as int,
                                j_m as int,
                                d_i as int,
                                d_j as int,
                                (max_moves - moves_made) as nat,
                                include_all_attacked,
                            ) == seq![(ui, uj)] + rest);
                            moves_vec.push((ui, uj));
                            i_m = ni;
                            j_m = nj;
                            moves_made += 1;
                            assert(before + (seq![(ui, uj)] + ray(
                                p,
                                piece_color,
                                ni as int,
                                nj as int,
                                d_i as int,
                                d_j as int,
                                (max_moves - moves_made) as nat,
                                include_all_attacked,
                            )) =~= moves_vec@ + ray(
                                p,
                                piece_color,
                                ni as int,
                                nj as int,
                                d_i as int,
                                d_j as int,
                                (max_moves - moves_made) as nat,
                                include_all_attacked,
                            ));
                        },
                        Some(piece) => {
                            if piece.color != piece_color || include_all_attacked {
                                moves_vec.push((ui, uj));
                                assert(before + seq![(ui, uj)] =~= moves_vec@);
                            } else {
                                assert(before + seq![] =~= before);
                            }
                            done = true;
                        },
                    }
                }
            }
            proof {
                if !done {
                    assert(moves_vec@ + seq![] =~= moves_vec@);
                }
                let sub = directions@.subrange(0, d + 1);
                assert(sub.drop_last() =~= directions@.subrange(0, d as int));
                assert(sub.last() == (d_i, d_j));
            }
            d += 1;
        }
        assert(directions@.subrange(0, directions@.len() as int) =~= directions@);
        moves_vec
    }

    /// Whether a pawn of `pawn_color` may move diagonally onto (i, j).
    pub fn pawn_can_capture(&self, i: usize, j: usize, pawn_color: Color) -> (r: bool)
        requires
            i < 8,
            j < 8,
        ensures
            r == pawn_can_capture_spec(*self, i as int, j as int, pawn_color),
    {
        if let Some(piece) = self.get(i, j) {
            if piece.color != pawn_color {
                return true;
            }
        }
        if let Some(ep) = self.en_passant_square {
            if ep.0 == i && ep.1 == j {
                if let Some(color) = can_en_passant(i) {
                    return color == pawn_color;
                }
            }
        }
        false
    }

    /// Pseudo-legal moves of the pawn on (i, j), or in attack mode the two
    /// squares it attacks.
    pub fn pawn_pseudo_legal_moves(&self, i: usize, j: usize, only_attacked: bool) -> (r: Vec<
        Square,
    >)
        requires
            i < 8,
            j < 8,
            self.at(i as int, j as int) is Some,
        ensures
            r@ == if only_attacked {
                pawn_attacks(i as int, j as int, self.at(i as int, j as int)->0.color)
            } else {
                pawn_moves(*self, i as int, j as int, self.at(i as int, j as int)->0.color)
            },
    {
        let pawn_color = self.get(i, j).unwrap().color;
        let d: i32 = match pawn_color {
            Color::White => -1,
            Color::Black => 1,
        };
        let mut moves_vec: Vec<Square> = Vec::new();
        let i_indx: i32 = i as i32 + d;
        if !only_attacked {
            if is_valid_pos(i_indx, j as i32) {
                let f = i_indx as usize;
                if self.get(f, j).is_none() {
                    moves_vec.push((f, j));
                    let start: usize = match pawn_color {
                        Color::White => 6,
                        Color::Black => 1,
                    };
                    if i == start {
                        let f2 = (i_indx + d) as usize;
                        if self.get(f2, j).is_none() {
                            moves_vec.push((f2, j));
                        }
                    }
                }
            }
            let ghost pushes = moves_vec@;
            assert(pushes =~= pawn_pushes(*self, i as int, j as int, pawn_color));
            if is_valid_pos(i_indx, j as i32 + 1) {
                if self.pawn_can_capture(i_indx as usize, j + 1, pawn_color) {
                    moves_vec.push((i_indx as usize, j + 1));
                }
            }
            let ghost right = moves_vec@;
            if is_valid_pos(i_indx, j as i32 - 1) {
                if self.pawn_can_capture(i_indx as usize, j - 1, pawn_color) {
                    moves_vec.push((i_indx as usize, j - 1));
                }
            }
            proof {
                let f = i as int + forward(pawn_color);
                let a = sq_if(
                    on_board(f, j + 1) && pawn_can_capture_spec(*self, f, j + 1, pawn_color),
                    f,
                    j + 1,
                );
                let b = sq_if(
                    on_board(f, j - 1) && pawn_can_capture_spec(*self, f, j - 1, pawn_color),
                    f,
                    j - 1,
                );
                assert(right =~= pushes + a);
                assert(moves_vec@ =~= pushes + a + b);
            }
        } else {
            if is_valid_pos(i_indx, j as i32 + 1) {
                moves_vec.push((i_indx as usize, j + 1));
            }
            let ghost right = moves_vec@;
            if is_valid_pos(i_indx, j as i32 - 1) {
                moves_vec.push((i_indx as usize, j - 1));
            }
            proof {
                let f = i as int + forward(pawn_color);
                assert(right =~= sq_if(on_board(f, j + 1), f, j + 1));
                assert(moves_vec@ =~= sq_if(on_board(f, j + 1), f, j + 1) + sq_if(
                    on_board(f, j - 1),
                    f,
                    j - 1,
                ));
            }
        }
        moves_vec
    }

    /// The squares attacked by the piece on (i, j); empty for an empty
    /// square.
    pub fn attack_targets_at(&self, i: usize, j: usize) -> (r: Vec<Square>)
        requires
            i < 8,
            j < 8,
        ensures
            r@ == attack_targets(*self, i as int, j as int),
    {
        match self.get(i, j) {
            None => Vec::new(),
            Some(piece) => match piece.piece_type {
                PieceType::Pawn => self.pawn_pseudo_legal_moves(i, j, true),
                PieceType::Knight => self.directional_pseudo_legal_moves(
                    i,
                    j,
                    &knight_directions(),
                    1,
                    true,
                ),
                PieceType::Bishop => self.directional_pseudo_legal_moves(
                    i,
                    j,
                    &bishop_directions(),
                    8,
                    true,
                ),
                PieceType::Rook => self.directional_pseudo_legal_moves(
                    i,
                    j,
                    &rook_directions(),
                    8,
                    true,
                ),
                PieceType::Queen => self.directional_pseudo_legal_moves(
                    i,
                    j,
                    &queen_directions(),
                    8,
                    true,
                ),
                PieceType::King => self.directional_pseudo_legal_moves(
                    i,
                    j,
                    &queen_directions(),
                    1,
                    true,
                ),
            },
        }
    }

    /// Every square attacked by a piece of `color`, scanning the board from
    /// a8; a square attacked twice occurs twice.
    pub fn get_attacked_squares(&self, color: Color) -> (r: Vec<Square>)
        ensures
            r@ == attack_set(*self, color),
    {
        let mut attack_vec: Vec<Square> = Vec::new();
        let mut i: usize = 0;
        while i < 8
            invariant
                i <= 8,
                attack_vec@ == attacks_upto(*self, color, i as int),
            decreases 8 - i,
        {
            let ghost before = attack_vec@;
            let mut j: usize = 0;
            while j < 8
                invariant
                    i < 8,
                    j <= 8,
                    attack_vec@ == before + attacks_in_rank(*self, color, i as int, j as int),
                decreases 8 - j,
            {
                let ghost prev = attack_vec@;
                if let Some(piece) = self.get(i, j) {
                    if piece.color == color {
                        let mut targets = self.attack_targets_at(i, j);
                        attack_vec.append(&mut targets);
                    }
                }
                assert(attack_vec@ =~= before + attacks_in_rank(
                    *self,
                    color,
                    i as int,
                    j + 1,
                ));
                j += 1;
            }
            i += 1;
        }
        attack_vec
    }

    /// Pseudo-legal moves of the king on (i, j), castling included outside
    /// attack mode.
    pub fn king_pseudo_legal_moves(&self, i: usize, j: usize, include_all_attacked: bool) -> (r:
        Vec<Square>)
        requires
            i < 8,
            j < 8,
            self.at(i as int, j as int) is Some,
        ensures
            r@ == if include_all_attacked {
                rays(
                    *self,
                    self.at(i as int, j as int)->0.color,
                    i as int,
                    j as int,
                    queen_dirs(),
                    1,
                    true,
                )
            } else {
                king_moves(*self, i as int, j as int, self.at(i as int, j as int)->0.color)
            },
    {
        let king_color = self.get(i, j).unwrap().color;
        let mut move_vec = self.directional_pseudo_legal_moves(
            i,
            j,
            &queen_directions(),
            1,
            include_all_attacked,
        );
        if include_all_attacked {
            return move_vec;
        }
        let ghost steps = move_vec@;
        let (kingside, queenside) = match king_color {
            Color::White => (self.castling.white_kingside, self.castling.white_queenside),
            Color::Black => (self.castling.black_kingside, self.castling.black_queenside),
        };
        let home: usize = match king_color {
            Color::White => 7,
            Color::Black => 0,
        };
        let rook = Some(Piece::new(PieceType::Rook, king_color));
        let on_home = i == home && j == 4;
        let mut ks = false;
        let mut qs = false;
        if on_home && (kingside || queenside) {
            let attacked = self.get_attacked_squares(king_color.opposite());
            if kingside && self.get(i, 5).is_none() && self.get(i, 6).is_none() && self.get(i, 7)
                == rook {
                ks = !contains_square(&attacked, (i, 4)) && !contains_square(&attacked, (i, 5))
                    && !contains_square(&attacked, (i, 6));
            }
            if queenside && self.get(i, 3).is_none() && self.get(i, 2).is_none() && self.get(i, 1)
                .is_none() && self.get(i, 0) == rook {
                qs = !contains_square(&attacked, (i, 4)) && !contains_square(&attacked, (i, 3))
                    && !contains_square(&attacked, (i, 2));
            }
        }
        if ks {
            move_vec.push((i, 6));
        }
        let ghost mid = move_vec@;
        if qs {
            move_vec.push((i, 2));
        }
        proof {
            let ksq = sq_if(can_castle_kingside(*self, i as int, j as int, king_color), i as int, 6);
            let qsq = sq_if(can_castle_queenside(*self, i as int, j as int, king_color), i as int, 2);
            assert(mid =~= steps + ksq);
            assert(move_vec@ =~= steps + ksq + qsq);
        }
        move_vec
    }

    /// The pseudo-legal destinations of the piece on (i, j); empty for an
    /// empty square.
    pub fn pseudo_legal_moves_at(&self, i: usize, j: usize) -> (r: Vec<Square>)
        requires
            i < 8,
            j < 8,
        ensures
            r@ == move_targets(*self, i as int, j as int),
    {
        match self.get(i, j) {
            None => Vec::new(),
            Some(piece) => match piece.piece_type {
                PieceType::Pawn => self.pawn_pseudo_legal_moves(i, j, false),
                PieceType::Knight => self.directional_pseudo_legal_moves(
                    i,
                    j,
                    &knight_directions(),
                    1,
                    false,
                ),
                PieceType::Bishop => self.directional_pseudo_legal_moves(
                    i,
                    j,
                    &bishop_directions(),
                    8,
                    false,
                ),
                PieceType::Rook => self.directional_pseudo_legal_moves(
                    i,
                    j,
                    &rook_directions(),
                    8,
                    false,
                ),
                PieceType::Queen => self.directional_pseudo_legal_moves(
                    i,
                    j,
                    &queen_directions(),
                    8,
                    false,
                ),
                PieceType::King => self.king_pseudo_legal_moves(i, j, false),
            },
        }
    }

    /// Whether one of `color`'s kings is attacked by the other side.
    pub fn in_check(&self, color: Color) -> (r: bool)
        ensures
            r == in_check_spec(*self, color),
    {
        let attacked = self.get_attacked_squares(color.opposite());
        let king = Some(Piece::new(PieceType::King, color));
        let mut i: usize = 0;
        while i < 8
            invariant
                i <= 8,
                attacked@ == attack_set(*self, opposite_spec(color)),
                king == Some(Piece { piece_type: PieceType::King, color }),
                forall|r: int, c: int|
                    0 <= r < i && 0 <= c < 8 && #[trigger] self.at(r, c) == king ==> !is_attacked(
                        *self,
                        opposite_spec(color),
                        r,
                        c,
                    ),
            decreases 8 - i,
        {
            let mut j: usize = 0;
            while j < 8
                invariant
                    i < 8,
                    j <= 8,
                    attacked@ == attack_set(*self, opposite_spec(color)),
                    king == Some(Piece { piece_type: PieceType::King, color }),
                    forall|r: int, c: int|
                        ((0 <= r < i && 0 <= c < 8) || (r == i && 0 <= c < j)) && #[trigger] self.at(
                            r,
                            c,
                        ) == king ==> !is_attacked(*self, opposite_spec(color), r, c),
                decreases 8 - j,
            {
                if self.get(i, j) == king {
                    if contains_square(&attacked, (i, j)) {
                        assert(self.at(i as int, j as int) == king);
                        return true;
                    }
                }
                j += 1;
            }
            i += 1;
        }
        false
    }

    /// The pseudo-legal destinations of the piece on (i, j), or in attack
    /// mode the squares it attacks; empty for an empty square, and an error
    /// for a square off the board.
    pub fn get_pseudo_legal_moves_for_square(&self, i: usize, j: usize, only_attacked: bool) -> (r:
        Result<Vec<Square>, String>)
        ensures
            r is Err <==> !valid_square((i, j)),
            r matches Ok(v) ==> v@ == if only_attacked {
                attack_targets(*self, i as int, j as int)
            } else {
                move_targets(*self, i as int, j as int)
            },
    {
        if i >= 8 || j >= 8 {
            return Err(String::from_str("Invalid index: no moves for a square off the board"));
        }
        if only_attacked {
            Ok(self.attack_targets_at(i, j))
        } else {
            Ok(self.pseudo_legal_moves_at(i, j))
        }
    }
}

} // verus!
