use vstd::prelude::*;

verus! {

/// The two sides of a game.
#[derive(Clone, Copy, Debug, PartialEq, Eq, Structural)]
pub enum Color {
    White,
    Black,
}

/// The six kinds of chess pieces.
#[derive(Clone, Copy, Debug, PartialEq, Eq, Structural)]
pub enum PieceType {
    Pawn,
    Knight,
    Bishop,
    Rook,
    Queen,
    King,
}

/// Moves that lie outside a piece's base geometric pattern.
#[derive(Clone, Copy, Debug, PartialEq, Eq, Structural)]
pub enum SpecialMove {
    Pawn2Step,
    CastlingLeft,
    CastlingRight,
}

/// A piece on the board: what it is, whose it is, how it moves and whether it has moved.
///
/// `movement` holds a primary step vector and an optional secondary one; each is
/// expanded into its four sign-symmetric directions. When `moves_continous` holds,
/// the piece repeats a step along a direction until it is blocked.
#[derive(Clone, Copy, Debug, PartialEq, Eq)]
pub struct Piece {
    pub piece_type: PieceType,
    pub color: Color,
    pub movement: ((isize, isize), Option<(isize, isize)>),
    pub moves_continous: bool,
    pub has_moved: bool,
}

pub open spec fn opposite(c: Color) -> Color {
    match c {
        Color::White => Color::Black,
        Color::Black => Color::White,
    }
}

/// The movement pattern (primary vector, secondary vector, sliding flag) of each piece type.
pub open spec fn pattern_of(t: PieceType) -> ((isize, isize), Option<(isize, isize)>, bool) {
    match t {
        PieceType::Pawn => ((0, 1), None, false),
        PieceType::Knight => ((1, 2), Some((2, 1)), false),
        PieceType::Bishop => ((1, 1), None, true),
        PieceType::Rook => ((0, 1), Some((1, 0)), true),
        PieceType::Queen => ((1, 1), Some((0, 1)), true),
        PieceType::King => ((1, 1), Some((0, 1)), false),
    }
}

/// The freshly made, never moved piece of the given color and type.
pub open spec fn new_piece(color: Color, t: PieceType) -> Piece {
    Piece {
        piece_type: t,
        color,
        movement: (pattern_of(t).0, pattern_of(t).1),
        moves_continous: pattern_of(t).2,
        has_moved: false,
    }
}

/// A step vector can be negated without overflow.
pub open spec fn vec_ok(v: (isize, isize)) -> bool {
    v.0 != isize::MIN && v.1 != isize::MIN
}

/// Every movement vector of the piece can be negated without overflow.
pub open spec fn piece_ok(p: Piece) -> bool {
    vec_ok(p.movement.0) && (p.movement.1 matches Some(m) ==> vec_ok(m))
}

impl Color {
    /// The other side.
    pub fn opponent(&self) -> (r: Color)
        ensures
            r == opposite(*self),
    {
        match self {
            Color::White => Color::Black,
            Color::Black => Color::White,
        }
    }
}

/// Makes a never-moved piece of the given color and type, with its movement pattern.
pub fn piece_make(color: Color, piece_type: PieceType) -> (r: Piece)
    ensures
        r == new_piece(color, piece_type),
        piece_ok(r),
{
    let (movement, moves_continous) = match piece_type {
        PieceType::Pawn => (((0isize, 1isize), None), false),
        PieceType::Knight => (((1isize, 2isize), Some((2isize, 1isize))), false),
        PieceType::Bishop => (((1isize, 1isize), None), true),
        PieceType::Rook => (((0isize, 1isize), Some((1isize, 0isize))), true),
        PieceType::Queen => (((1isize, 1isize), Some((0isize, 1isize))), true),
        PieceType::King => (((1isize, 1isize), Some((0isize, 1isize))), false),
    };
    Piece { piece_type, color, movement, moves_continous, has_moved: false }
}

} // verus!
