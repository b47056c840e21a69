//! The mathematical model of the rules: squares, rays, move sets and threats,
//! all stated over a grid of 64 squares stored row by row.
use vstd::prelude::*;
use crate::piece::{new_piece, Color, Piece, PieceType, SpecialMove};

verus! {

/// A square as (column, row).
pub type Pos = (usize, usize);

/// The king-cache value that marks "no king placed".
pub const UNSET: usize = 256;

pub open spec fn on_board(p: Pos) -> bool {
    p.0 < 8 && p.1 < 8
}

pub open spec fn unset() -> Pos {
    (UNSET, UNSET)
}

/// Index of a square in the row-by-row grid.
pub open spec fn sq(p: Pos) -> int {
    p.1 as int * 8 + p.0 as int
}

pub open spec fn at(g: Seq<Option<Piece>>, p: Pos) -> Option<Piece> {
    g[sq(p)]
}

pub open spec fn ivec(v: (isize, isize)) -> (int, int) {
    (v.0 as int, v.1 as int)
}

/// The square one step `d` away from `p`, if it lies on the board.
pub open spec fn step(p: Pos, d: (int, int)) -> Option<Pos> {
    let nx = p.0 + d.0;
    let ny = p.1 + d.1;
    if 0 <= nx < 8 && 0 <= ny < 8 {
        Some((nx as usize, ny as usize))
    } else {
        None
    }
}

/// The squares reached by walking from `p` along `d`, at most `n` steps: the walk
/// stops at the edge, and after the first occupied square, which it includes.
pub open spec fn ray(g: Seq<Option<Piece>>, p: Pos, d: (int, int), n: nat) -> Seq<Pos>
    decreases n,
{
    if n == 0 {
        seq![]
    } else {
        match step(p, d) {
            None => seq![],
            Some(t) => if at(g, t).is_some() {
                seq![t]
            } else {
                seq![t] + ray(g, t, d, (n - 1) as nat)
            },
        }
    }
}

/// A full sliding walk (the board has eight squares per line).
pub open spec fn slide(g: Seq<Option<Piece>>, p: Pos, d: (int, int)) -> Seq<Pos> {
    ray(g, p, d, 8)
}

/// The squares probed in direction `d`: the whole walk when sliding, else one step.
pub open spec fn probe(g: Seq<Option<Piece>>, p: Pos, d: (int, int), sliding: bool) -> Seq<Pos> {
    if sliding {
        slide(g, p, d)
    } else {
        match step(p, d) {
            Some(t) => seq![t],
            None => seq![],
        }
    }
}

/// The squares probed along the four sign-symmetric directions of `m`.
pub open spec fn around(g: Seq<Option<Piece>>, p: Pos, m: (int, int), sliding: bool) -> Seq<Pos> {
    probe(g, p, (m.0, m.1), sliding) + probe(g, p, (-m.0, m.1), sliding) + probe(
        g,
        p,
        (m.0, -m.1),
        sliding,
    ) + probe(g, p, (-m.0, -m.1), sliding)
}

pub open spec fn forward(c: Color) -> int {
    if c == Color::White {
        1
    } else {
        -1
    }
}

pub open spec fn home_row(c: Color) -> usize {
    if c == Color::White {
        0
    } else {
        7
    }
}

pub open spec fn pawn_row_of(c: Color) -> usize {
    if c == Color::White {
        1
    } else {
        6
    }
}

/// The piece type that starts on column `x` of the home row.
pub open spec fn back_rank(x: usize) -> PieceType {
    if x == 0 || x == 7 {
        PieceType::Rook
    } else if x == 1 || x == 6 {
        PieceType::Knight
    } else if x == 2 || x == 5 {
        PieceType::Bishop
    } else if x == 3 {
        PieceType::Queen
    } else {
        PieceType::King
    }
}

/// The piece that the standard setup of color `c` puts on `p`, if any.
pub open spec fn start_piece(c: Color, p: Pos) -> Option<Piece> {
    if p.1 == pawn_row_of(c) {
        Some(new_piece(c, PieceType::Pawn))
    } else if p.1 == home_row(c) {
        Some(new_piece(c, back_rank(p.0)))
    } else {
        None
    }
}

/// The sixteen squares of color `c`'s standard setup are all empty.
pub open spec fn ranks_free(g: Seq<Option<Piece>>, c: Color) -> bool {
    forall|p: Pos| on_board(p) && #[trigger] start_piece(c, p).is_some() ==> at(g, p).is_none()
}

/// The pawn's forward step onto an empty square, and its diagonal-forward steps
/// onto squares that hold an opposing piece.
pub open spec fn pawn_candidates(g: Seq<Option<Piece>>, p: Pos, c: Color) -> Seq<Pos> {
    let f = forward(c);
    let ahead = match step(p, (0, f)) {
        Some(t) => if at(g, t).is_none() {
            seq![t]
        } else {
            seq![]
        },
        None => seq![],
    };
    let right = match step(p, (1, f)) {
        Some(t) => if at(g, t).is_some() && at(g, t).unwrap().color != c {
            seq![t]
        } else {
            seq![]
        },
        None => seq![],
    };
    let left = match step(p, (-1, f)) {
        Some(t) => if at(g, t).is_some() && at(g, t).unwrap().color != c {
            seq![t]
        } else {
            seq![]
        },
        None => seq![],
    };
    ahead + right + left
}

/// The geometric candidates of the piece at `p`, before same-color squares are removed.
pub open spec fn candidates(g: Seq<Option<Piece>>, p: Pos) -> Seq<Pos> {
    match at(g, p) {
        None => seq![],
        Some(pc) => if pc.piece_type == PieceType::Pawn {
            pawn_candidates(g, p, pc.color)
        } else {
            around(g, p, ivec(pc.movement.0), pc.moves_continous) + match pc.movement.1 {
                Some(m) => around(g, p, ivec(m), pc.moves_continous),
                None => seq![],
            }
        },
    }
}

/// `q` is a regular move of the piece at `p`: a candidate that holds no piece of its color.
pub open spec fn regular_move(g: Seq<Option<Piece>>, p: Pos, q: Pos) -> bool {
    &&& at(g, p).is_some()
    &&& candidates(g, p).contains(q)
    &&& (at(g, q).is_none() || at(g, q).unwrap().color != at(g, p).unwrap().color)
}

/// Some square probed from `s` by pattern `m` holds a piece not of color `c`
/// whose regular moves include `s`.
pub open spec fn scan_hit(g: Seq<Option<Piece>>, s: Pos, c: Color, m: (int, int), sliding: bool) -> bool {
    exists|i: int|
        0 <= i < around(g, s, m, sliding).len() && {
            let q = #[trigger] around(g, s, m, sliding)[i];
            at(g, q).is_some() && at(g, q).unwrap().color != c && regular_move(g, q, s)
        }
}

/// The occupant of color `c` at `s` would be attacked: found by the vertical,
/// horizontal and diagonal sliding patterns and the two knight-shaped patterns.
pub open spec fn threatened(g: Seq<Option<Piece>>, s: Pos, c: Color) -> bool {
    ||| scan_hit(g, s, c, (0, 1), true)
    ||| scan_hit(g, s, c, (1, 0), true)
    ||| scan_hit(g, s, c, (1, 1), true)
    ||| scan_hit(g, s, c, (1, 2), false)
    ||| scan_hit(g, s, c, (2, 1), false)
}

/// Castling from `p` along `d` is open to color `c`: the walk ends on a never-moved
/// rook of `c`, and no square strictly between is threatened.
pub open spec fn castle_open(g: Seq<Option<Piece>>, p: Pos, d: (int, int), c: Color) -> bool {
    let r = slide(g, p, d);
    &&& r.len() > 0
    &&& at(g, r.last()) matches Some(rk)
    &&& rk.piece_type == PieceType::Rook
    &&& rk.color == c
    &&& !rk.has_moved
    &&& forall|i: int| 0 <= i < r.len() - 1 ==> !threatened(g, #[trigger] r[i], c)
}

/// The pawn double-step of an unmoved pawn at `p`, when its target is empty.
pub open spec fn pawn_special(g: Seq<Option<Piece>>, p: Pos, pc: Piece) -> Seq<(Pos, SpecialMove)> {
    if pc.piece_type == PieceType::Pawn {
        match step(p, (0, 2 * forward(pc.color))) {
            Some(t) => if at(g, t).is_none() {
                seq![(t, SpecialMove::Pawn2Step)]
            } else {
                seq![]
            },
            None => seq![],
        }
    } else {
        seq![]
    }
}

/// Castling of an unmoved, unthreatened king at `p`, to the fixed columns 6 and 2.
pub open spec fn castle_special(g: Seq<Option<Piece>>, p: Pos, pc: Piece) -> Seq<(Pos, SpecialMove)> {
    if pc.piece_type == PieceType::King && !threatened(g, p, pc.color) {
        let row = home_row(pc.color);
        (if castle_open(g, p, (1, 0), pc.color) {
            seq![((6usize, row), SpecialMove::CastlingRight)]
        } else {
            seq![]
        }) + (if castle_open(g, p, (-1, 0), pc.color) {
            seq![((2usize, row), SpecialMove::CastlingLeft)]
        } else {
            seq![]
        })
    } else {
        seq![]
    }
}

/// The special moves of the piece at `p`.
pub open spec fn specials(g: Seq<Option<Piece>>, p: Pos) -> Seq<(Pos, SpecialMove)> {
    match at(g, p) {
        None => seq![],
        Some(pc) => if pc.has_moved {
            seq![]
        } else {
            pawn_special(g, p, pc) + castle_special(g, p, pc)
        },
    }
}

/// `a` comes strictly before `b` by column, then row.
pub open spec fn pos_lt(a: Pos, b: Pos) -> bool {
    a.0 < b.0 || (a.0 == b.0 && a.1 < b.1)
}

/// The grid after the piece at `from` is lifted and set down, unchanged, on `to`.
pub open spec fn shifted_grid(g: Seq<Option<Piece>>, from: Pos, to: Pos) -> Seq<Option<Piece>> {
    g.update(sq(from), None).update(sq(to), at(g, from))
}

/// The grid after the piece at `from` is lifted, marked as moved, and set down on `to`.
pub open spec fn moved_grid(g: Seq<Option<Piece>>, from: Pos, to: Pos) -> Seq<Option<Piece>> {
    let pc = at(g, from).unwrap();
    g.update(sq(from), None).update(sq(to), Some(Piece { has_moved: true, ..pc }))
}

/// Where color `c`'s king is cached after that relocation: it follows a moving
/// king, and is cleared when its king is captured.
pub open spec fn moved_king(g: Seq<Option<Piece>>, cache: Pos, c: Color, from: Pos, to: Pos) -> Pos {
    let pc = at(g, from).unwrap();
    if pc.piece_type == PieceType::King && pc.color == c {
        to
    } else if cache == to {
        unset()
    } else {
        cache
    }
}

/// After moving the piece at `from` to `to`, the mover's king is attacked; `cache`
/// is the mover's king cache before the move. With no king placed there is no check.
pub open spec fn exposes_king(g: Seq<Option<Piece>>, cache: Pos, from: Pos, to: Pos) -> bool {
    let c = at(g, from).unwrap().color;
    let k = moved_king(g, cache, c, from, to);
    k != unset() && threatened(moved_grid(g, from, to), k, c)
}

/// The square holds the king of color `c`.
pub open spec fn is_king_of(o: Option<Piece>, c: Color) -> bool {
    o matches Some(pc) && pc.piece_type == PieceType::King && pc.color == c
}

/// The cache is unset or on the board, and the king of color `c` stands on
/// exactly the cached square.
pub open spec fn king_cache_ok(g: Seq<Option<Piece>>, cache: Pos, c: Color) -> bool {
    &&& (cache == unset() || on_board(cache))
    &&& forall|p: Pos| on_board(p) ==> (is_king_of(#[trigger] at(g, p), c) <==> p == cache)
}

/// Every square of a walk lies on the board.
pub proof fn lemma_ray_on_board(g: Seq<Option<Piece>>, p: Pos, d: (int, int), n: nat)
    ensures
        forall|i: int| 0 <= i < ray(g, p, d, n).len() ==> on_board(#[trigger] ray(g, p, d, n)[i]),
    decreases n,
{
    if n > 0 {
        if let Some(t) = step(p, d) {
            lemma_ray_on_board(g, t, d, (n - 1) as nat);
            if at(g, t).is_none() {
                let r = ray(g, p, d, n);
                assert forall|i: int| 0 <= i < r.len() implies on_board(#[trigger] r[i]) by {
                    if i > 0 {
                        assert(r[i] == ray(g, t, d, (n - 1) as nat)[i - 1]);
                    }
                }
            }
        }
    }
}

/// Every square probed around `p` lies on the board.
pub proof fn lemma_around_on_board(g: Seq<Option<Piece>>, p: Pos, m: (int, int), sliding: bool)
    ensures
        forall|i: int| 0 <= i < around(g, p, m, sliding).len() ==> on_board(#[trigger] around(g, p, m, sliding)[i]),
{
    lemma_ray_on_board(g, p, (m.0, m.1), 8);
    lemma_ray_on_board(g, p, (-m.0, m.1), 8);
    lemma_ray_on_board(g, p, (m.0, -m.1), 8);
    lemma_ray_on_board(g, p, (-m.0, -m.1), 8);
    let a = probe(g, p, (m.0, m.1), sliding);
    let b = probe(g, p, (-m.0, m.1), sliding);
    let c = probe(g, p, (m.0, -m.1), sliding);
    let e = probe(g, p, (-m.0, -m.1), sliding);
    let r = around(g, p, m, sliding);
    assert forall|i: int| 0 <= i < r.len() implies on_board(#[trigger] r[i]) by {
        if i < a.len() {
            assert(r[i] == a[i]);
        } else if i < a.len() + b.len() {
            assert(r[i] == b[i - a.len()]);
        } else if i < a.len() + b.len() + c.len() {
            assert(r[i] == c[i - a.len() - b.len()]);
        } else {
            assert(r[i] == e[i - a.len() - b.len() - c.len()]);
        }
    }
}

/// The target of every special move lies on the board.
pub proof fn lemma_specials_on_board(g: Seq<Option<Piece>>, p: Pos)
    ensures
        forall|i: int| 0 <= i < specials(g, p).len() ==> on_board(#[trigger] specials(g, p)[i].0),
{
    let s = specials(g, p);
    assert forall|i: int| 0 <= i < s.len() implies on_board(#[trigger] s[i].0) by {
        let pc = at(g, p).unwrap();
        let a = pawn_special(g, p, pc);
        if i < a.len() {
            assert(s[i] == a[i]);
        } else {
            assert(s[i] == castle_special(g, p, pc)[i - a.len()]);
        }
    }
}

/// Pushing onto a sequence keeps what it held.
pub proof fn lemma_push_keeps<T>(s: Seq<T>, x: T)
    ensures
        forall|y: T| s.contains(y) ==> #[trigger] s.push(x).contains(y),
        s.push(x).contains(x),
{
    assert forall|y: T| s.contains(y) implies #[trigger] s.push(x).contains(y) by {
        let k = choose|k: int| 0 <= k < s.len() && s[k] == y;
        assert(s.push(x)[k] == y);
    }
    assert(s.push(x)[s.len() as int] == x);
}

} // verus!
