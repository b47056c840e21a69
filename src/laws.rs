//! General properties of the rules, proved over the model.
use vstd::prelude::*;
use crate::board::ChessBoard;
use crate::piece::{Color, Piece, PieceType, SpecialMove};
use crate::rules::{
    around, at, castle_open, castle_special, candidates, exposes_king, ivec, moved_grid, on_board,
    pawn_special, probe, ray, regular_move, slide, specials, sq, step, threatened, Pos,
};

verus! {

/// A regular move never lands on a piece of the mover's own color: the target is
/// either empty or holds an opposing piece.
pub proof fn lemma_no_friendly_capture(g: Seq<Option<Piece>>, p: Pos, q: Pos)
    requires
        regular_move(g, p, q),
    ensures
        at(g, q) matches Some(o) ==> o.color != at(g, p).unwrap().color,
{
}

/// A walk along a ray stops at the first occupied square: every square before the
/// last one is empty.
pub proof fn lemma_walk_stops_at_blocker(g: Seq<Option<Piece>>, p: Pos, d: (int, int), n: nat)
    ensures
        forall|i: int| 0 <= i < ray(g, p, d, n).len() - 1 ==> at(g, #[trigger] ray(g, p, d, n)[i]).is_none(),
    decreases n,
{
    if n > 0 {
        if let Some(t) = step(p, d) {
            if at(g, t).is_none() {
                lemma_walk_stops_at_blocker(g, t, d, (n - 1) as nat);
                let r = ray(g, p, d, n);
                assert forall|i: int| 0 <= i < r.len() - 1 implies at(g, #[trigger] r[i]).is_none() by {
                    if i > 0 {
                        assert(r[i] == ray(g, t, d, (n - 1) as nat)[i - 1]);
                    }
                }
            }
        }
    }
}

/// The directions of a sliding piece: the four sign variants of its primary vector,
/// then those of its secondary vector, if any.
pub open spec fn slide_dirs(pc: Piece) -> Seq<(int, int)> {
    let m = ivec(pc.movement.0);
    let first = seq![(m.0, m.1), (-m.0, m.1), (m.0, -m.1), (-m.0, -m.1)];
    match pc.movement.1 {
        Some(v) => {
            let n = ivec(v);
            first + seq![(n.0, n.1), (-n.0, n.1), (n.0, -n.1), (-n.0, -n.1)]
        },
        None => first,
    }
}

/// The last square of a ray along one of the four sign variants of `m` is among
/// the squares probed around `p`.
proof fn lemma_ray_end_in_around(g: Seq<Option<Piece>>, p: Pos, m: (int, int), k: int)
    requires
        0 <= k < 4,
        slide(g, p, seq![(m.0, m.1), (-m.0, m.1), (m.0, -m.1), (-m.0, -m.1)][k]).len() > 0,
    ensures
        around(g, p, m, true).contains(slide(g, p, seq![(m.0, m.1), (-m.0, m.1), (m.0, -m.1), (-m.0, -m.1)][k]).last()),
{
    let r = slide(g, p, seq![(m.0, m.1), (-m.0, m.1), (m.0, -m.1), (-m.0, -m.1)][k]);
    let a = probe(g, p, (m.0, m.1), true);
    let b = probe(g, p, (-m.0, m.1), true);
    let c = probe(g, p, (m.0, -m.1), true);
    let e = probe(g, p, (-m.0, -m.1), true);
    let ar = around(g, p, m, true);
    let idx = if k == 0 {
        a.len() - 1
    } else if k == 1 {
        a.len() + b.len() - 1
    } else if k == 2 {
        a.len() + b.len() + c.len() - 1
    } else {
        a.len() + b.len() + c.len() + e.len() - 1
    };
    assert(ar[idx] == r.last());
}

/// For a sliding piece, a ray along any of its directions holds only empty squares
/// before its last one; when that last square holds a piece, it is a regular move
/// exactly when that piece is an opposing one.
pub proof fn lemma_sliding_blocker(g: Seq<Option<Piece>>, p: Pos, k: int)
    requires
        g.len() == 64,
        on_board(p),
        at(g, p) matches Some(pc) && pc.piece_type != PieceType::Pawn && pc.moves_continous,
        0 <= k < slide_dirs(at(g, p).unwrap()).len(),
    ensures
        ({
            let pc = at(g, p).unwrap();
            let r = slide(g, p, slide_dirs(pc)[k]);
            &&& forall|i: int| 0 <= i < r.len() - 1 ==> at(g, #[trigger] r[i]).is_none()
            &&& r.len() > 0 && at(g, r.last()).is_some() ==> (regular_move(g, p, r.last())
                <==> at(g, r.last()).unwrap().color != pc.color)
        }),
{
    let pc = at(g, p).unwrap();
    let d = slide_dirs(pc)[k];
    let r = slide(g, p, d);
    lemma_walk_stops_at_blocker(g, p, d, 8);
    if r.len() > 0 {
        let m = ivec(pc.movement.0);
        let ar = around(g, p, m, true);
        let extra = match pc.movement.1 {
            Some(m2) => around(g, p, ivec(m2), true),
            None => seq![],
        };
        assert(candidates(g, p) == ar + extra);
        if k < 4 {
            assert(d == seq![(m.0, m.1), (-m.0, m.1), (m.0, -m.1), (-m.0, -m.1)][k]);
            lemma_ray_end_in_around(g, p, m, k);
            let j = choose|j: int| 0 <= j < ar.len() && ar[j] == r.last();
            assert((ar + extra)[j] == r.last());
        } else {
            let n = ivec(pc.movement.1.unwrap());
            assert(d == seq![(n.0, n.1), (-n.0, n.1), (n.0, -n.1), (-n.0, -n.1)][k - 4]);
            lemma_ray_end_in_around(g, p, n, k - 4);
            let j = choose|j: int| 0 <= j < extra.len() && extra[j] == r.last();
            assert((ar + extra)[ar.len() + j] == r.last());
        }
        assert(candidates(g, p).contains(r.last()));
    }
}

/// Every move that `get_moves` offers, castling aside, leaves the mover's king
/// unattacked.
pub proof fn lemma_offered_moves_keep_king_safe(b: &ChessBoard, p: Pos, q: Pos, t: Option<SpecialMove>)
    requires
        b.legal_move(p, q, t),
        t != Some(SpecialMove::CastlingLeft),
        t != Some(SpecialMove::CastlingRight),
    ensures
        !exposes_king(b.grid(), b.king_pos(at(b.grid(), p).unwrap().color), p, q),
{
}

/// Castling is offered only for a never-moved king that is not attacked, toward a
/// never-moved rook of its color, with no attacked square strictly between them.
pub proof fn lemma_castling_preconditions(b: &ChessBoard, p: Pos, q: Pos, k: SpecialMove)
    requires
        b.legal_move(p, q, Some(k)),
        k != SpecialMove::Pawn2Step,
    ensures
        ({
            let g = b.grid();
            let pc = at(g, p).unwrap();
            let d = if k == SpecialMove::CastlingRight { (1int, 0int) } else { (-1int, 0int) };
            &&& pc.piece_type == PieceType::King
            &&& !pc.has_moved
            &&& !threatened(g, p, pc.color)
            &&& castle_open(g, p, d, pc.color)
        }),
{
    let g = b.grid();
    let s = specials(g, p);
    let j = choose|j: int| 0 <= j < s.len() && s[j] == (q, k);
    let pc = at(g, p).unwrap();
    assert(!pc.has_moved);
    let a = pawn_special(g, p, pc);
    let c = castle_special(g, p, pc);
    assert(s == a + c);
    assert(a.len() == 0 || a[0].1 == SpecialMove::Pawn2Step);
    assert(j >= a.len());
    assert(c[j - a.len()] == (q, k));
}

/// The column `i + 1` squares from column `x` in the direction of sign `s`.
pub open spec fn col_from(x: usize, s: int, i: int) -> int {
    if s == 1 {
        x + 1 + i
    } else {
        x - 1 - i
    }
}

/// A walk along a row visits the neighbouring columns in order.
proof fn lemma_row_walk(g: Seq<Option<Piece>>, p: Pos, s: int, n: nat)
    requires
        s == 1 || s == -1,
        on_board(p),
    ensures
        forall|i: int| 0 <= i < ray(g, p, (s, 0), n).len() ==> (#[trigger] ray(g, p, (s, 0), n)[i]).0 == col_from(
        p.0, s, i) && ray(g, p, (s, 0), n)[i].1 == p.1,
    decreases n,
{
    let r = ray(g, p, (s, 0), n);
    if n > 0 {
        if let Some(t) = step(p, (s, 0)) {
            assert(t.0 == col_from(p.0, s, 0) && 0 <= t.0 < 8 && t.1 == p.1);
            if at(g, t).is_some() {
                assert(r == seq![t]);
                assert forall|i: int| 0 <= i < r.len() implies (#[trigger] r[i]).0 == col_from(p.0, s, i) && r[i].1 == p.1 by {
                    assert(i == 0);
                    assert(r[0] == t);
                }
            } else {
                let rest = ray(g, t, (s, 0), (n - 1) as nat);
                lemma_row_walk(g, t, s, (n - 1) as nat);
                assert(r == seq![t] + rest);
                assert forall|i: int| 0 <= i < r.len() implies (#[trigger] r[i]).0 == col_from(p.0, s, i) && r[i].1 == p.1 by {
                    if i == 0 {
                        assert(r[0] == t);
                    } else {
                        assert(r[i] == rest[i - 1]);
                        assert(col_from(t.0, s, i - 1) == col_from(p.0, s, i));
                    }
                }
            }
        } else {
            assert(r.len() == 0);
        }
    } else {
        assert(r.len() == 0);
    }
}

/// Castling is offered only when, on the king's row, the first piece in the
/// castling direction is a never-moved rook of the king's color, and every square
/// strictly between king and rook is empty and not attacked; the king itself has
/// never moved and is not attacked.
pub proof fn lemma_castling_by_columns(b: &ChessBoard, p: Pos, q: Pos, k: SpecialMove)
    requires
        b.grid().len() == 64,
        on_board(p),
        b.legal_move(p, q, Some(k)),
        k != SpecialMove::Pawn2Step,
    ensures
        ({
            let g = b.grid();
            let pc = at(g, p).unwrap();
            &&& pc.piece_type == PieceType::King
            &&& !pc.has_moved
            &&& !threatened(g, p, pc.color)
            &&& exists|r: usize| {
                &&& r < 8
                &&& (if k == SpecialMove::CastlingRight { p.0 < r } else { r < p.0 })
                &&& #[trigger] at(g, (r, p.1)) matches Some(rk)
                &&& rk.piece_type == PieceType::Rook
                &&& rk.color == pc.color
                &&& !rk.has_moved
                &&& forall|x: usize| (if k == SpecialMove::CastlingRight { p.0 < x < r } else { r < x < p.0 })
                    ==> (#[trigger] at(g, (x, p.1))).is_none() && !threatened(g, (x, p.1), pc.color)
            }
        }),
{
    lemma_castling_preconditions(b, p, q, k);
    let g = b.grid();
    let pc = at(g, p).unwrap();
    let s: int = if k == SpecialMove::CastlingRight { 1 } else { -1 };
    let w = slide(g, p, (s, 0));
    lemma_row_walk(g, p, s, 8);
    lemma_walk_stops_at_blocker(g, p, (s, 0), 8);
    crate::rules::lemma_ray_on_board(g, p, (s, 0), 8);
    let last = w.last();
    assert(on_board(w[w.len() - 1]));
    let r: usize = last.0;
    assert(last == w[w.len() - 1]);
    assert forall|x: usize| (if k == SpecialMove::CastlingRight { p.0 < x < r } else { r < x < p.0 })
        implies (#[trigger] at(g, (x, p.1))).is_none() && !threatened(g, (x, p.1), pc.color) by {
        let i: int = if s == 1 { x - p.0 - 1 } else { p.0 - x - 1 };
        assert(col_from(p.0, s, i) == x);
        assert(w[i] == (x, p.1));
        assert(at(g, w[i]).is_none());
        assert(!threatened(g, w[i], pc.color));
    }
    assert(last == (r, p.1));
    assert(castle_open(g, p, (s, 0), pc.color));
    assert(if k == SpecialMove::CastlingRight { p.0 < r } else { r < p.0 });
    let rk = at(g, (r, p.1)).unwrap();
    assert(rk.piece_type == PieceType::Rook && rk.color == pc.color && !rk.has_moved);
}

/// A legal move of any piece of `color` rules out checkmate of `color`.
pub proof fn lemma_legal_move_blocks_mate(b: &ChessBoard, p: Pos, q: Pos, t: Option<SpecialMove>, color: Color)
    requires
        on_board(p),
        at(b.grid(), p) matches Some(pc) && pc.color == color,
        b.legal_move(p, q, t),
    ensures
        b.has_legal_move(color),
        !(b.in_check(color) && !b.has_legal_move(color)),
{
    assert(b.can_move(p, color));
}

/// Carrying out a regular move empties its source square and puts the moved piece,
/// now marked as moved, on its target.
pub proof fn lemma_move_round_trip(g: Seq<Option<Piece>>, from: Pos, to: Pos)
    requires
        g.len() == 64,
        on_board(from),
        on_board(to),
        regular_move(g, from, to),
    ensures
        at(moved_grid(g, from, to), from).is_none(),
        at(moved_grid(g, from, to), to) == Some(Piece { has_moved: true, ..at(g, from).unwrap() }),
{
    assert(from != to);
    assert(sq(from) != sq(to));
}

} // verus!
