//! The board state and the executable rules engine over it.
use vstd::prelude::*;
use crate::notation::{file_str, notation, rank_str};
use crate::piece::{opposite, piece_make, piece_ok, vec_ok, Color, Piece, PieceType, SpecialMove};
use crate::rules::{
    around, at, back_rank, candidates, castle_open, castle_special, exposes_king, forward,
    home_row, is_king_of, ivec, king_cache_ok, lemma_around_on_board, lemma_push_keeps,
    lemma_ray_on_board, lemma_specials_on_board, moved_grid, moved_king, shifted_grid, on_board, pawn_row_of,
    pawn_special, pos_lt, ranks_free, ray, regular_move, scan_hit, slide, specials, sq,
    start_piece, step, threatened, unset, Pos, UNSET,
};

verus! {

/// An 8x8 chess board with its king caches, en-passant slot, move history and turn marker.
pub struct ChessBoard {
    board: Vec<Option<Piece>>,
    white_king: Pos,
    black_king: Pos,
    passant_connection: Option<(Pos, Pos)>,
    history: Vec<(Pos, Pos)>,
    turn: (Color, usize),
}

/// Why a setup step was refused.
#[derive(Clone, Copy, Debug, PartialEq, Eq, Structural)]
pub enum SetupError {
    /// The target square already holds a piece.
    Occupied,
    /// A king of that color has already been placed.
    DuplicateKing,
}

impl ChessBoard {
    /// The 64 squares, row by row.
    pub closed spec fn grid(&self) -> Seq<Option<Piece>> {
        self.board@
    }

    /// The cached position of color `c`'s king.
    pub closed spec fn king_pos(&self, c: Color) -> Pos {
        if c == Color::White {
            self.white_king
        } else {
            self.black_king
        }
    }

    pub closed spec fn turn_color(&self) -> Color {
        self.turn.0
    }

    pub closed spec fn ply(&self) -> usize {
        self.turn.1
    }

    pub closed spec fn moves_made(&self) -> Seq<(Pos, Pos)> {
        self.history@
    }

    pub closed spec fn passant(&self) -> Option<(Pos, Pos)> {
        self.passant_connection
    }

    /// Well-formedness: 64 squares, pieces whose vectors can be negated, and king
    /// caches that agree with the grid.
    pub open spec fn wf(&self) -> bool {
        &&& self.grid().len() == 64
        &&& forall|i: int| 0 <= i < 64 ==> (#[trigger] self.grid()[i] matches Some(pc) ==> piece_ok(pc))
        &&& crate::rules::king_cache_ok(self.grid(), self.king_pos(Color::White), Color::White)
        &&& crate::rules::king_cache_ok(self.grid(), self.king_pos(Color::Black), Color::Black)
    }

    /// The piece on a square, if any.
    pub fn ref_piece(&self, position: Pos) -> (r: Option<&Piece>)
        requires
            self.wf(),
            on_board(position),
        ensures
            r.is_some() == at(self.grid(), position).is_some(),
            r matches Some(pc) ==> *pc == at(self.grid(), position).unwrap(),
    {
        self.board[position.1 * 8 + position.0].as_ref()
    }

    fn piece_at(&self, position: Pos) -> (r: Option<Piece>)
        requires
            self.wf(),
            on_board(position),
        ensures
            r == at(self.grid(), position),
    {
        self.board[position.1 * 8 + position.0]
    }

    /// The square `moves` away from `position`, with its occupant; an error when off the board.
    fn check_move(&self, position: Pos, moves: (isize, isize)) -> (r: Result<(Pos, Option<Piece>), String>)
        requires
            self.wf(),
            on_board(position),
        ensures
            match step(position, crate::rules::ivec(moves)) {
                Some(t) => r == Ok::<(Pos, Option<Piece>), String>((t, at(self.grid(), t))),
                None => r.is_err(),
            },
    {
        if moves.0 >= 8 || moves.0 <= -8 || moves.1 >= 8 || moves.1 <= -8 {
            return Err(String::from_str("not valid movement"));
        }
        let new_x: isize = position.0 as isize + moves.0;
        let new_y: isize = position.1 as isize + moves.1;
        if new_x < 0 || new_x >= 8 || new_y < 0 || new_y >= 8 {
            return Err(String::from_str("not valid movement"));
        }
        let new_pos: Pos = (new_x as usize, new_y as usize);
        Ok((new_pos, self.piece_at(new_pos)))
    }

    /// Walks from `position` along `direction` until the edge or the first occupied
    /// square, which is included.
    fn check_continous(&self, position: Pos, direction: (isize, isize)) -> (r: Vec<Pos>)
        requires
            self.wf(),
            on_board(position),
        ensures
            r@ == slide(self.grid(), position, crate::rules::ivec(direction)),
    {
        let ghost g = self.grid();
        let ghost d = crate::rules::ivec(direction);
        let mut res: Vec<Pos> = Vec::new();
        let mut cur: Pos = position;
        let mut i: usize = 0;
        let mut open = true;
        while open && i < 8
            invariant
                self.wf(),
                g == self.grid(),
                d == crate::rules::ivec(direction),
                on_board(cur),
                i <= 8,
                res@ + (if open { ray(g, cur, d, (8 - i) as nat) } else { seq![] }) == ray(
                    g,
                    position,
                    d,
                    8,
                ),
            decreases 8 - i,
        {
            let ghost before = res@;
            let ghost rest = ray(g, cur, d, (8 - i) as nat);
            match self.check_move(cur, direction) {
                Err(_) => {
                    open = false;
                },
                Ok((t, occ)) => {
                    res.push(t);
                    if occ.is_some() {
                        open = false;
                        assert(res@ + seq![] =~= before + rest);
                    } else {
                        assert(before + rest =~= res@ + ray(g, t, d, (8 - i - 1) as nat));
                        cur = t;
                    }
                },
            }
            i += 1;
        }
        assert(res@ + seq![] =~= res@);
        res
    }

    fn probe(&self, position: Pos, direction: (isize, isize), sliding: bool) -> (r: Vec<Pos>)
        requires
            self.wf(),
            on_board(position),
        ensures
            r@ == crate::rules::probe(self.grid(), position, crate::rules::ivec(direction), sliding),
    {
        if sliding {
            self.check_continous(position, direction)
        } else {
            let mut r: Vec<Pos> = Vec::new();
            if let Ok((t, _)) = self.check_move(position, direction) {
                r.push(t);
            }
            assert(r@ =~= crate::rules::probe(self.grid(), position, crate::rules::ivec(direction), sliding));
            r
        }
    }

    /// The squares probed along the four sign-symmetric directions of `moveset`.
    fn check_around(&self, position: Pos, moveset: (isize, isize), moves_continous: bool) -> (r: Vec<Pos>)
        requires
            self.wf(),
            on_board(position),
            vec_ok(moveset),
        ensures
            r@ == around(self.grid(), position, crate::rules::ivec(moveset), moves_continous),
    {
        let (move_x, move_y) = moveset;
        let mut r = self.probe(position, (move_x, move_y), moves_continous);
        let mut b = self.probe(position, (-move_x, move_y), moves_continous);
        r.append(&mut b);
        let mut c = self.probe(position, (move_x, -move_y), moves_continous);
        r.append(&mut c);
        let mut e = self.probe(position, (-move_x, -move_y), moves_continous);
        r.append(&mut e);
        r
    }

    /// The regular (geometric) moves of the piece at `position`, sorted by column
    /// then row, without repeats; empty for an empty square. None of them lands on
    /// a piece of the mover's color.
    pub fn regular_moves(&self, position: Pos) -> (r: Vec<Pos>)
        requires
            self.wf(),
            on_board(position),
        ensures
            forall|q: Pos| #[trigger] r@.contains(q) <==> on_board(q) && regular_move(self.grid(), position, q),
            forall|i: int, j: int| 0 <= i < j < r@.len() ==> pos_lt(r@[i], r@[j]),
            forall|i: int| 0 <= i < r@.len() ==> on_board(#[trigger] r@[i]) && (at(self.grid(), r@[i]) matches Some(o)
                ==> o.color != at(self.grid(), position).unwrap().color),
    {
        let ghost g = self.grid();
        let mut cands: Vec<Pos> = Vec::new();
        let occupant = self.piece_at(position);
        if let Some(piece) = occupant {
            proof {
                assert(piece_ok(g[sq(position)].unwrap()));
            }
            match piece.piece_type {
                PieceType::Pawn => {
                    let color_modifier: isize = if piece.color == Color::White { 1 } else { -1 };
                    let mut ahead: Vec<Pos> = Vec::new();
                    if let Ok((space, occ)) = self.check_move(position, (0, color_modifier)) {
                        if occ.is_none() {
                            ahead.push(space);
                        }
                    }
                    let mut right: Vec<Pos> = Vec::new();
                    if let Ok((space, occ)) = self.check_move(position, (1, color_modifier)) {
                        if let Some(o) = occ {
                            if o.color != piece.color {
                                right.push(space);
                            }
                        }
                    }
                    let mut left: Vec<Pos> = Vec::new();
                    if let Ok((space, occ)) = self.check_move(position, (-1, color_modifier)) {
                        if let Some(o) = occ {
                            if o.color != piece.color {
                                left.push(space);
                            }
                        }
                    }
                    proof {
                        let f = forward(piece.color);
                        assert(ahead@ =~= match step(position, (0, f)) {
                            Some(t) => if at(g, t).is_none() { seq![t] } else { seq![] },
                            None => seq![],
                        });
                        assert(right@ =~= match step(position, (1, f)) {
                            Some(t) => if at(g, t).is_some() && at(g, t).unwrap().color != piece.color { seq![t] } else { seq![] },
                            None => seq![],
                        });
                        assert(left@ =~= match step(position, (-1, f)) {
                            Some(t) => if at(g, t).is_some() && at(g, t).unwrap().color != piece.color { seq![t] } else { seq![] },
                            None => seq![],
                        });
                    }
                    cands.append(&mut ahead);
                    cands.append(&mut right);
                    cands.append(&mut left);
                },
                _ => {
                    let (movement1, movement2) = piece.movement;
                    let mut first = self.check_around(position, movement1, piece.moves_continous);
                    cands.append(&mut first);
                    if let Some(movement) = movement2 {
                        let mut second = self.check_around(position, movement, piece.moves_continous);
                        cands.append(&mut second);
                    } else {
                        assert(cands@ + seq![] =~= cands@);
                    }
                },
            }
        }
        assert(cands@ =~= candidates(g, position));
        let mut results: Vec<Pos> = Vec::new();
        let mut x: usize = 0;
        while x < 8
            invariant
                self.wf(),
                g == self.grid(),
                on_board(position),
                cands@ == candidates(g, position),
                occupant == at(g, position),
                x <= 8,
                forall|i: int| 0 <= i < results@.len() ==> on_board(#[trigger] results@[i]) && pos_lt(results@[i], (x, 0usize)) && regular_move(g, position, results@[i]),
                forall|q: Pos| on_board(q) && pos_lt(q, (x, 0usize)) && #[trigger] regular_move(g, position, q) ==> results@.contains(q),
                forall|i: int, j: int| 0 <= i < j < results@.len() ==> pos_lt(results@[i], results@[j]),
            decreases 8 - x,
        {
            let mut y: usize = 0;
            while y < 8
                invariant
                    self.wf(),
                    g == self.grid(),
                    on_board(position),
                    cands@ == candidates(g, position),
                    occupant == at(g, position),
                    x < 8,
                    y <= 8,
                    forall|i: int| 0 <= i < results@.len() ==> on_board(#[trigger] results@[i]) && pos_lt(results@[i], (x, y)) && regular_move(g, position, results@[i]),
                    forall|q: Pos| on_board(q) && pos_lt(q, (x, y)) && #[trigger] regular_move(g, position, q) ==> results@.contains(q),
                    forall|i: int, j: int| 0 <= i < j < results@.len() ==> pos_lt(results@[i], results@[j]),
                decreases 8 - y,
            {
                let q: Pos = (x, y);
                let is_move = match occupant {
                    Some(piece) => has_pos(&cands, q) && match self.piece_at(q) {
                        None => true,
                        Some(t) => t.color != piece.color,
                    },
                    None => false,
                };
                assert(is_move == regular_move(g, position, q));
                let ghost old_r = results@;
                if is_move {
                    results.push(q);
                    proof {
                        assert forall|p: Pos| on_board(p) && pos_lt(p, (x, (y + 1) as usize)) && #[trigger] regular_move(g, position, p) implies results@.contains(p) by {
                            if p == q {
                                assert(results@[results@.len() - 1] == p);
                            } else {
                                assert(old_r.contains(p));
                                let k = choose|k: int| 0 <= k < old_r.len() && old_r[k] == p;
                                assert(results@[k] == p);
                            }
                        }
                    }
                }
                y += 1;
            }
            x += 1;
        }
        assert forall|q: Pos| results@.contains(q) <==> on_board(q) && regular_move(g, position, q) by {
            if results@.contains(q) {
                let k = choose|k: int| 0 <= k < results@.len() && results@[k] == q;
                assert(on_board(results@[k]));
            }
            if on_board(q) && regular_move(g, position, q) {
                assert(pos_lt(q, (8usize, 0usize)));
            }
        }
        results
    }

    /// Whether the occupant of color `color` at `pos` is attacked by an opposing piece
    /// found along the directions of `moveset`: the piece found must itself be able
    /// to move to `pos`.
    pub fn is_threatened_by(&self, pos: Pos, color: Color, moveset: (isize, isize), check_continous: bool) -> (r: bool)
        requires
            self.wf(),
            on_board(pos),
            vec_ok(moveset),
        ensures
            r == scan_hit(self.grid(), pos, color, ivec(moveset), check_continous),
    {
        let ghost g = self.grid();
        let spaces = self.check_around(pos, moveset, check_continous);
        proof {
            lemma_around_on_board(g, pos, ivec(moveset), check_continous);
        }
        let mut i: usize = 0;
        while i < spaces.len()
            invariant
                self.wf(),
                g == self.grid(),
                on_board(pos),
                spaces@ == around(g, pos, ivec(moveset), check_continous),
                i <= spaces@.len(),
                forall|k: int| 0 <= k < spaces@.len() ==> on_board(#[trigger] spaces@[k]),
                forall|k: int| 0 <= k < i ==> !({
                    let q = #[trigger] spaces@[k];
                    at(g, q).is_some() && at(g, q).unwrap().color != color && regular_move(g, q, pos)
                }),
            decreases spaces@.len() - i,
        {
            let p_pos = spaces[i];
            if let Some(piece) = self.piece_at(p_pos) {
                if piece.color != color {
                    let moves = self.regular_moves(p_pos);
                    if has_pos(&moves, pos) {
                        assert(spaces@[i as int] == p_pos);
                        return true;
                    }
                }
            }
            i += 1;
        }
        false
    }

    /// Whether the occupant of color `color` at `pos` would be attacked, by the
    /// vertical, horizontal, diagonal and knight-shaped attack patterns.
    fn is_threatened(&self, pos: Pos, color: Color) -> (r: bool)
        requires
            self.wf(),
            on_board(pos),
        ensures
            r == threatened(self.grid(), pos, color),
    {
        if self.is_threatened_by(pos, color, (0, 1), true) {
            return true;
        }
        if self.is_threatened_by(pos, color, (1, 0), true) {
            return true;
        }
        if self.is_threatened_by(pos, color, (1, 1), true) {
            return true;
        }
        if self.is_threatened_by(pos, color, (1, 2), false) {
            return true;
        }
        if self.is_threatened_by(pos, color, (2, 1), false) {
            return true;
        }
        false
    }

    /// Castling from the king at `position` along `direction` is open to `color`.
    fn can_castle(&self, position: Pos, direction: (isize, isize), color: Color) -> (r: bool)
        requires
            self.wf(),
            on_board(position),
        ensures
            r == castle_open(self.grid(), position, ivec(direction), color),
    {
        let ghost g = self.grid();
        let mut spaces = self.check_continous(position, direction);
        let ghost walk = spaces@;
        proof {
            lemma_ray_on_board(g, position, ivec(direction), 8);
        }
        match spaces.pop() {
            None => false,
            Some(last) => {
                let is_rook = match self.piece_at(last) {
                    Some(rook) => rook.piece_type == PieceType::Rook && rook.color == color && !rook.has_moved,
                    None => false,
                };
                if !is_rook {
                    return false;
                }
                let mut i: usize = 0;
                while i < spaces.len()
                    invariant
                        self.wf(),
                        g == self.grid(),
                        spaces@ == walk.drop_last(),
                        walk == slide(g, position, ivec(direction)),
                        walk.len() > 0,
                        forall|k: int| 0 <= k < walk.len() ==> on_board(#[trigger] walk[k]),
                        i <= spaces@.len(),
                        forall|k: int| 0 <= k < i ==> !threatened(g, #[trigger] walk[k], color),
                    decreases spaces@.len() - i,
                {
                    assert(spaces@[i as int] == walk[i as int]);
                    if self.is_threatened(spaces[i], color) {
                        return false;
                    }
                    i += 1;
                }
                true
            },
        }
    }

    /// The special moves of the piece at `position`: the double step of an unmoved
    /// pawn, and castling for an unmoved, unthreatened king.
    fn special_moves(&self, position: Pos) -> (r: Vec<(Pos, SpecialMove)>)
        requires
            self.wf(),
            on_board(position),
        ensures
            r@ == specials(self.grid(), position),
    {
        let ghost g = self.grid();
        let mut special_moves: Vec<(Pos, SpecialMove)> = Vec::new();
        if let Some(piece) = self.piece_at(position) {
            if !piece.has_moved {
                if piece.piece_type == PieceType::Pawn {
                    let color_modifier: isize = if piece.color == Color::White { 2 } else { -2 };
                    if let Ok((target, occ)) = self.check_move(position, (0, color_modifier)) {
                        if occ.is_none() {
                            special_moves.push((target, SpecialMove::Pawn2Step));
                        }
                    }
                    assert(special_moves@ =~= pawn_special(g, position, piece));
                }
                if piece.piece_type == PieceType::King && !self.is_threatened(position, piece.color) {
                    let row: usize = if piece.color == Color::White { 0 } else { 7 };
                    if self.can_castle(position, (1, 0), piece.color) {
                        special_moves.push(((6, row), SpecialMove::CastlingRight));
                    }
                    if self.can_castle(position, (-1, 0), piece.color) {
                        special_moves.push(((2, row), SpecialMove::CastlingLeft));
                    }
                }
                assert(special_moves@ =~= pawn_special(g, position, piece) + castle_special(g, position, piece));
            }
        }
        special_moves
    }

    /// `q` with tag `t` is a move that `get_moves` offers from `p`: a regular move
    /// that does not expose the mover's king, a pawn double step that does not
    /// either, or a castling move.
    pub open spec fn legal_move(&self, p: Pos, q: Pos, t: Option<SpecialMove>) -> bool {
        let g = self.grid();
        let cache = self.king_pos(at(g, p).unwrap().color);
        match t {
            None => on_board(q) && regular_move(g, p, q) && !exposes_king(g, cache, p, q),
            Some(k) => specials(g, p).contains((q, k)) && (k == SpecialMove::Pawn2Step
                ==> !exposes_king(g, cache, p, q)),
        }
    }

    /// Lifts the piece at `from` and sets it down on `to`, marked as moved when
    /// `mark_moved` holds, keeping both king caches in step with the grid.
    fn relocate(&mut self, from: Pos, to: Pos, mark_moved: bool)
        requires
            old(self).wf(),
            on_board(from),
            on_board(to),
            at(old(self).grid(), from).is_some(),
        ensures
            final(self).wf(),
            final(self).grid() == if mark_moved {
                moved_grid(old(self).grid(), from, to)
            } else {
                shifted_grid(old(self).grid(), from, to)
            },
            forall|c: Color| #[trigger] final(self).king_pos(c) == moved_king(old(self).grid(), old(self).king_pos(c), c, from, to),
            final(self).moves_made() == old(self).moves_made(),
            final(self).turn_color() == old(self).turn_color(),
            final(self).ply() == old(self).ply(),
            final(self).passant() == old(self).passant(),
    {
        let ghost g = self.grid();
        let piece = self.board[from.1 * 8 + from.0].unwrap();
        let moved = if mark_moved { Piece { has_moved: true, ..piece } } else { piece };
        self.board.set(from.1 * 8 + from.0, None);
        self.board.set(to.1 * 8 + to.0, Some(moved));
        let is_king = piece.piece_type == PieceType::King;
        if is_king && piece.color == Color::White {
            self.white_king = to;
        } else if self.white_king.0 == to.0 && self.white_king.1 == to.1 {
            self.white_king = (UNSET, UNSET);
        }
        if is_king && piece.color == Color::Black {
            self.black_king = to;
        } else if self.black_king.0 == to.0 && self.black_king.1 == to.1 {
            self.black_king = (UNSET, UNSET);
        }
        proof {
            let ng = self.grid();
            if mark_moved {
                assert(ng =~= moved_grid(g, from, to));
            } else {
                assert(ng =~= shifted_grid(g, from, to));
            }
            assert(piece_ok(g[sq(from)].unwrap()));
            assert forall|i: int| 0 <= i < 64 implies (#[trigger] ng[i] matches Some(pc) ==> piece_ok(pc)) by {
                if i != sq(to) && i != sq(from) {
                    assert(ng[i] == g[i]);
                }
            }
            assert forall|c: Color| #[trigger] self.king_pos(c) == moved_king(g, old(self).king_pos(c), c, from, to) by {}
            assert forall|c: Color| king_cache_ok(ng, #[trigger] self.king_pos(c), c) by {
                assert(king_cache_ok(g, old(self).king_pos(c), c));
                assert forall|p: Pos| on_board(p) implies (is_king_of(#[trigger] at(ng, p), c) <==> p == self.king_pos(c)) by {
                    assert(is_king_of(at(g, p), c) <==> p == old(self).king_pos(c));
                    assert(is_king_of(at(g, from), c) <==> from == old(self).king_pos(c));
                    if p != to && p != from {
                        assert(sq(p) != sq(to) && sq(p) != sq(from));
                        assert(at(ng, p) == at(g, p));
                    }
                }
            }
            assert(king_cache_ok(ng, self.king_pos(Color::White), Color::White));
            assert(king_cache_ok(ng, self.king_pos(Color::Black), Color::Black));
        }
    }

    /// A full, independent copy of the board.
    fn clone_chess(&self) -> (r: ChessBoard)
        requires
            self.wf(),
        ensures
            r.wf(),
            r.grid() == self.grid(),
            forall|c: Color| #[trigger] r.king_pos(c) == self.king_pos(c),
            r.moves_made() == self.moves_made(),
            r.turn_color() == self.turn_color(),
            r.ply() == self.ply(),
            r.passant() == self.passant(),
    {
        let mut board: Vec<Option<Piece>> = Vec::new();
        let mut i: usize = 0;
        while i < self.board.len()
            invariant
                self.wf(),
                i <= self.board@.len(),
                board@ == self.board@.subrange(0, i as int),
            decreases self.board@.len() - i,
        {
            board.push(self.board[i]);
            i += 1;
            assert(board@ =~= self.board@.subrange(0, i as int));
        }
        let mut history: Vec<(Pos, Pos)> = Vec::new();
        let mut j: usize = 0;
        while j < self.history.len()
            invariant
                j <= self.history@.len(),
                history@ == self.history@.subrange(0, j as int),
            decreases self.history@.len() - j,
        {
            history.push(self.history[j]);
            j += 1;
            assert(history@ =~= self.history@.subrange(0, j as int));
        }
        assert(board@ =~= self.board@);
        assert(history@ =~= self.history@);
        let r = ChessBoard {
            board,
            white_king: self.white_king,
            black_king: self.black_king,
            passant_connection: self.passant_connection,
            history,
            turn: self.turn,
        };
        assert(r.grid() == self.grid());
        r
    }

    /// Whether moving the piece at `move_from` to `move_to` would leave its own
    /// king attacked; tried on a scratch copy of the board.
    fn self_check(&self, move_from: Pos, move_to: Pos) -> (r: bool)
        requires
            self.wf(),
            on_board(move_from),
            on_board(move_to),
            at(self.grid(), move_from).is_some(),
        ensures
            r == exposes_king(self.grid(), self.king_pos(at(self.grid(), move_from).unwrap().color), move_from, move_to),
    {
        let color = self.piece_at(move_from).unwrap().color;
        let mut test = self.clone_chess();
        test.relocate(move_from, move_to, true);
        let king = if color == Color::White { test.white_king } else { test.black_king };
        assert(king == test.king_pos(color));
        if king.0 == UNSET && king.1 == UNSET {
            false
        } else {
            test.is_threatened(king, color)
        }
    }

    /// The legal moves of the piece at `position`, each with its special-move tag.
    pub fn get_moves(&self, position: Pos) -> (r: Vec<(Pos, Option<SpecialMove>)>)
        requires
            self.wf(),
            on_board(position),
        ensures
            forall|q: Pos, t: Option<SpecialMove>| #[trigger] r@.contains((q, t)) <==> self.legal_move(position, q, t),
    {
        let ghost g = self.grid();
        let mut all_moves: Vec<(Pos, Option<SpecialMove>)> = Vec::new();
        let regs = self.regular_moves(position);
        assert forall|k: int| 0 <= k < regs@.len() implies on_board(#[trigger] regs@[k]) && regular_move(g, position, regs@[k]) by {
            assert(regs@.contains(regs@[k]));
        }
        let mut i: usize = 0;
        while i < regs.len()
            invariant
                self.wf(),
                g == self.grid(),
                on_board(position),
                forall|k: int| 0 <= k < regs@.len() ==> on_board(#[trigger] regs@[k]) && regular_move(g, position, regs@[k]),
                forall|q: Pos| on_board(q) && regular_move(g, position, q) ==> #[trigger] regs@.contains(q),
                i <= regs@.len(),
                forall|k: int| 0 <= k < all_moves@.len() ==> self.legal_move(position, (#[trigger] all_moves@[k]).0, all_moves@[k].1),
                forall|j: int| 0 <= j < i && !exposes_king(g, self.king_pos(at(g, position).unwrap().color), position, #[trigger] regs@[j]) ==> all_moves@.contains((regs@[j], None::<SpecialMove>)),
            decreases regs@.len() - i,
        {
            let mov = regs[i];
            if !self.self_check(position, mov) {
                proof {
                    lemma_push_keeps(all_moves@, (mov, None::<SpecialMove>));
                }
                all_moves.push((mov, None));
            }
            i += 1;
        }
        let specs = self.special_moves(position);
        proof {
            lemma_specials_on_board(g, position);
        }
        let mut i2: usize = 0;
        while i2 < specs.len()
            invariant
                self.wf(),
                g == self.grid(),
                on_board(position),
                forall|k: int| 0 <= k < regs@.len() ==> on_board(#[trigger] regs@[k]) && regular_move(g, position, regs@[k]),
                forall|q: Pos| on_board(q) && regular_move(g, position, q) ==> #[trigger] regs@.contains(q),
                specs@ == specials(g, position),
                forall|k: int| 0 <= k < specs@.len() ==> on_board(#[trigger] specs@[k].0),
                i2 <= specs@.len(),
                forall|k: int| 0 <= k < all_moves@.len() ==> self.legal_move(position, (#[trigger] all_moves@[k]).0, all_moves@[k].1),
                forall|j: int| 0 <= j < regs@.len() && !exposes_king(g, self.king_pos(at(g, position).unwrap().color), position, #[trigger] regs@[j]) ==> all_moves@.contains((regs@[j], None::<SpecialMove>)),
                forall|j: int| 0 <= j < i2 && ((#[trigger] specs@[j]).1 != SpecialMove::Pawn2Step || !exposes_king(g, self.king_pos(at(g, position).unwrap().color), position, specs@[j].0)) ==> all_moves@.contains((specs@[j].0, Some(specs@[j].1))),
            decreases specs@.len() - i2,
        {
            let mov = specs[i2];
            assert(specs@.contains(mov));
            if mov.1 == SpecialMove::Pawn2Step {
                if !self.self_check(position, mov.0) {
                    proof {
                        lemma_push_keeps(all_moves@, (mov.0, Some(mov.1)));
                    }
                    all_moves.push((mov.0, Some(mov.1)));
                }
            } else {
                proof {
                    lemma_push_keeps(all_moves@, (mov.0, Some(mov.1)));
                }
                all_moves.push((mov.0, Some(mov.1)));
            }
            i2 += 1;
        }
        assert forall|q: Pos, t: Option<SpecialMove>| all_moves@.contains((q, t)) <==> self.legal_move(position, q, t) by {
            if all_moves@.contains((q, t)) {
                let k = choose|k: int| 0 <= k < all_moves@.len() && all_moves@[k] == (q, t);
                assert(self.legal_move(position, all_moves@[k].0, all_moves@[k].1));
            }
            if self.legal_move(position, q, t) {
                match t {
                    None => {
                        assert(regs@.contains(q));
                        let j = choose|j: int| 0 <= j < regs@.len() && regs@[j] == q;
                        assert(!exposes_king(g, self.king_pos(at(g, position).unwrap().color), position, regs@[j]));
                    },
                    Some(kd) => {
                        let j = choose|j: int| 0 <= j < specs@.len() && specs@[j] == (q, kd);
                        assert(specs@[j].0 == q);
                    },
                }
            }
        }
        all_moves
    }

    /// The piece at `p` belongs to `color` and has at least one legal move.
    pub open spec fn can_move(&self, p: Pos, color: Color) -> bool {
        &&& at(self.grid(), p) matches Some(pc)
        &&& pc.color == color
        &&& exists|q: Pos, t: Option<SpecialMove>| self.legal_move(p, q, t)
    }

    /// Some piece of `color` has a legal move.
    pub open spec fn has_legal_move(&self, color: Color) -> bool {
        exists|p: Pos| on_board(p) && #[trigger] self.can_move(p, color)
    }

    /// The king of `color` is placed and attacked.
    pub open spec fn in_check(&self, color: Color) -> bool {
        self.king_pos(color) != unset() && threatened(self.grid(), self.king_pos(color), color)
    }

    /// The text reported for a move that is not among the piece's regular moves.
    pub open spec fn illegal_text(from: Pos, to: Pos) -> Seq<char> {
        "tried to do illegal move! Cannot move from "@ + notation(from) + " to "@ + notation(to)
    }

    /// Moves the piece of `player_color` at `move_from` to `move_to` when that is one
    /// of its regular moves; records the move and passes the turn. Reports the move
    /// in notation, or says why it was refused, leaving the board as it was.
    pub fn move_piece(&mut self, player_color: Color, move_from: Pos, move_to: Pos) -> (r: Result<String, String>)
        requires
            old(self).wf(),
            on_board(move_from),
        ensures
            final(self).wf(),
            match at(old(self).grid(), move_from) {
                None => r matches Err(e) && e@ == "Tried to move empty space!"@ && *final(self) == *old(self),
                Some(pc) => if pc.color != player_color {
                    r matches Err(e) && e@ == "That is not your piece!"@ && *final(self) == *old(self)
                } else if !(on_board(move_to) && regular_move(old(self).grid(), move_from, move_to)) {
                    r matches Err(e) && (on_board(move_to) ==> e@ == Self::illegal_text(move_from, move_to))
                        && *final(self) == *old(self)
                } else {
                    &&& r matches Ok(s) && s@ == notation(move_from) + seq![' '] + notation(move_to)
                    &&& final(self).grid() == moved_grid(old(self).grid(), move_from, move_to)
                    &&& forall|c: Color| #[trigger] final(self).king_pos(c) == moved_king(old(self).grid(), old(self).king_pos(c), c, move_from, move_to)
                    &&& final(self).moves_made() == old(self).moves_made().push((move_from, move_to))
                    &&& final(self).turn_color() == opposite(player_color)
                    &&& final(self).ply() == if old(self).ply() < usize::MAX { (old(self).ply() + 1) as usize } else { old(self).ply() }
                    &&& final(self).passant() == old(self).passant()
                },
            },
    {
        match self.piece_at(move_from) {
            None => Err(String::from_str("Tried to move empty space!")),
            Some(piece) => {
                if piece.color != player_color {
                    return Err(String::from_str("That is not your piece!"));
                }
                let legal = if move_to.0 < 8 && move_to.1 < 8 {
                    let moves = self.regular_moves(move_from);
                    has_pos(&moves, move_to)
                } else {
                    false
                };
                assert(legal == (on_board(move_to) && regular_move(self.grid(), move_from, move_to)));
                if !legal {
                    let mut e = String::from_str("tried to do illegal move! Cannot move from ");
                    e.append(file_str(move_from.0));
                    e.append(rank_str(move_from.1));
                    if !(move_to.0 < 8 && move_to.1 < 8) {
                        e.append(" to a square off the board");
                    } else {
                        e.append(" to ");
                        e.append(file_str(move_to.0));
                        e.append(rank_str(move_to.1));
                        assert(e@ =~= Self::illegal_text(move_from, move_to));
                    }
                    return Err(e);
                }
                self.relocate(move_from, move_to, true);
                self.history.push((move_from, move_to));
                let ply = if self.turn.1 < usize::MAX { self.turn.1 + 1 } else { self.turn.1 };
                self.turn = (player_color.opponent(), ply);
                let mut s = String::from_str(file_str(move_from.0));
                s.append(rank_str(move_from.1));
                s.append(" ");
                s.append(file_str(move_to.0));
                s.append(rank_str(move_to.1));
                proof {
                    reveal_strlit(" ");
                }
                assert(s@ =~= notation(move_from) + seq![' '] + notation(move_to));
                Ok(s)
            },
        }
    }

    /// Moves whatever stands on `piece_pos`, unchanged, to `new_pos`, with no check of
    /// rules or ownership; an error only when `piece_pos` is empty.
    pub fn force_move(&mut self, piece_pos: Pos, new_pos: Pos) -> (r: Result<String, String>)
        requires
            old(self).wf(),
            on_board(piece_pos),
            on_board(new_pos),
        ensures
            final(self).wf(),
            at(old(self).grid(), piece_pos).is_none() ==> r.is_err() && *final(self) == *old(self),
            at(old(self).grid(), piece_pos).is_some() ==> {
                &&& r matches Ok(s) && s@ == "Moved from "@ + notation(piece_pos) + " to "@ + notation(new_pos)
                &&& final(self).grid() == shifted_grid(old(self).grid(), piece_pos, new_pos)
                &&& forall|c: Color| #[trigger] final(self).king_pos(c) == moved_king(old(self).grid(), old(self).king_pos(c), c, piece_pos, new_pos)
                &&& final(self).moves_made() == old(self).moves_made()
                &&& final(self).turn_color() == old(self).turn_color()
                &&& final(self).ply() == old(self).ply()
            },
    {
        if self.piece_at(piece_pos).is_none() {
            let mut e = String::from_str("Can't force move, no piece at ");
            e.append(file_str(piece_pos.0));
            e.append(rank_str(piece_pos.1));
            return Err(e);
        }
        self.relocate(piece_pos, new_pos, false);
        let mut s = String::from_str("Moved from ");
        s.append(file_str(piece_pos.0));
        s.append(rank_str(piece_pos.1));
        s.append(" to ");
        s.append(file_str(new_pos.0));
        s.append(rank_str(new_pos.1));
        assert(s@ =~= "Moved from "@ + notation(piece_pos) + " to "@ + notation(new_pos));
        Ok(s)
    }

    /// Whether the king of the side to move is attacked.
    pub fn is_checked(&self) -> (r: bool)
        requires
            self.wf(),
        ensures
            r == self.in_check(self.turn_color()),
    {
        let color = self.turn.0;
        let king_pos = if color == Color::White { self.white_king } else { self.black_king };
        assert(king_pos == self.king_pos(color));
        if king_pos.0 == UNSET && king_pos.1 == UNSET {
            return false;
        }
        self.is_threatened(king_pos, color)
    }

    /// Whether `color` is checkmated: its king is attacked and none of its pieces,
    /// the king included, has a legal move.
    pub fn is_checkmate(&self, color: Color) -> (r: bool)
        requires
            self.wf(),
        ensures
            r == (self.in_check(color) && !self.has_legal_move(color)),
    {
        let king_pos = if color == Color::White { self.white_king } else { self.black_king };
        assert(king_pos == self.king_pos(color));
        if king_pos.0 == UNSET && king_pos.1 == UNSET {
            return false;
        }
        if !self.is_threatened(king_pos, color) {
            return false;
        }
        let king_moves = self.get_moves(king_pos);
        if king_moves.len() > 0 {
            proof {
                assert(king_moves@.contains(king_moves@[0]));
                assert(king_cache_ok(self.grid(), king_pos, color));
                assert(is_king_of(at(self.grid(), king_pos), color));
                self.lemma_nonempty_moves(king_pos, color, king_moves@[0].0, king_moves@[0].1);
            }
            return false;
        }
        let mut y: usize = 0;
        while y < 8
            invariant
                self.wf(),
                y <= 8,
                forall|p: Pos| on_board(p) && p.1 < y ==> !#[trigger] self.can_move(p, color),
            decreases 8 - y,
        {
            let mut x: usize = 0;
            while x < 8
                invariant
                    self.wf(),
                    y < 8,
                    x <= 8,
                    forall|p: Pos| on_board(p) && (p.1 < y || (p.1 == y && p.0 < x)) ==> !#[trigger] self.can_move(p, color),
                decreases 8 - x,
            {
                if let Some(piece) = self.piece_at((x, y)) {
                    if piece.color == color {
                        let moves = self.get_moves((x, y));
                        if moves.len() > 0 {
                            proof {
                                assert(moves@.contains(moves@[0]));
                                self.lemma_nonempty_moves((x, y), color, moves@[0].0, moves@[0].1);
                            }
                            return false;
                        }
                        assert forall|q: Pos, t: Option<SpecialMove>| !self.legal_move((x, y), q, t) by {
                            if self.legal_move((x, y), q, t) {
                                assert(moves@.contains((q, t)));
                            }
                        }
                    }
                }
                x += 1;
            }
            y += 1;
        }
        true
    }

    proof fn lemma_nonempty_moves(&self, p: Pos, color: Color, q: Pos, t: Option<SpecialMove>)
        requires
            on_board(p),
            at(self.grid(), p) matches Some(pc) && pc.color == color,
            self.legal_move(p, q, t),
        ensures
            self.has_legal_move(color),
    {
        assert(self.can_move(p, color));
    }

    /// Places `piece` on the empty square `position`; a king only while no king of
    /// its color is placed, and the king cache then records it.
    pub fn add_piece(&mut self, piece: Piece, position: Pos) -> (r: Result<(), SetupError>)
        requires
            old(self).wf(),
            on_board(position),
            piece_ok(piece),
        ensures
            final(self).wf(),
            at(old(self).grid(), position).is_some() ==> r == Err::<(), SetupError>(SetupError::Occupied) && *final(self) == *old(self),
            at(old(self).grid(), position).is_none() && piece.piece_type == PieceType::King && old(self).king_pos(piece.color) != unset()
                ==> r == Err::<(), SetupError>(SetupError::DuplicateKing) && *final(self) == *old(self),
            at(old(self).grid(), position).is_none() && (piece.piece_type != PieceType::King || old(self).king_pos(piece.color) == unset()) ==> {
                &&& r is Ok
                &&& final(self).grid() == old(self).grid().update(sq(position), Some(piece))
                &&& forall|c: Color| #[trigger] final(self).king_pos(c) == if piece.piece_type == PieceType::King && c == piece.color { position } else { old(self).king_pos(c) }
                &&& final(self).moves_made() == old(self).moves_made()
                &&& final(self).turn_color() == old(self).turn_color()
                &&& final(self).ply() == old(self).ply()
                &&& final(self).passant() == old(self).passant()
            },
    {
        let ghost g = self.grid();
        if self.piece_at(position).is_some() {
            return Err(SetupError::Occupied);
        }
        if piece.piece_type == PieceType::King {
            if piece.color == Color::White && self.white_king.0 == UNSET && self.white_king.1 == UNSET {
                self.white_king = position;
            } else if piece.color == Color::Black && self.black_king.0 == UNSET && self.black_king.1 == UNSET {
                self.black_king = position;
            } else {
                return Err(SetupError::DuplicateKing);
            }
        }
        self.board.set(position.1 * 8 + position.0, Some(piece));
        proof {
            let ng = self.grid();
            assert(ng =~= g.update(sq(position), Some(piece)));
            assert forall|i: int| 0 <= i < 64 implies (#[trigger] ng[i] matches Some(pc) ==> piece_ok(pc)) by {
                if i != sq(position) {
                    assert(ng[i] == g[i]);
                }
            }
            assert forall|c: Color| king_cache_ok(ng, #[trigger] self.king_pos(c), c) by {
                assert(king_cache_ok(g, old(self).king_pos(c), c));
                assert forall|p: Pos| on_board(p) implies (is_king_of(#[trigger] at(ng, p), c) <==> p == self.king_pos(c)) by {
                    assert(is_king_of(at(g, p), c) <==> p == old(self).king_pos(c));
                    if p != position {
                        assert(sq(p) != sq(position));
                        assert(at(ng, p) == at(g, p));
                    }
                }
            }
            assert(king_cache_ok(ng, self.king_pos(Color::White), Color::White));
            assert(king_cache_ok(ng, self.king_pos(Color::Black), Color::Black));
        }
        Ok(())
    }

    /// Sets up the standard starting pieces of `color` on its pawn row and home row,
    /// and records its king. Refused, with the board left as it was, when one of
    /// those sixteen squares is occupied or a king of `color` is already placed.
    pub fn standard_pieces(&mut self, color: Color) -> (r: Result<(), SetupError>)
        requires
            old(self).wf(),
        ensures
            final(self).wf(),
            !ranks_free(old(self).grid(), color) ==> r == Err::<(), SetupError>(SetupError::Occupied) && *final(self) == *old(self),
            ranks_free(old(self).grid(), color) && old(self).king_pos(color) != unset()
                ==> r == Err::<(), SetupError>(SetupError::DuplicateKing) && *final(self) == *old(self),
            ranks_free(old(self).grid(), color) && old(self).king_pos(color) == unset() ==> {
                &&& r is Ok
                &&& forall|p: Pos| on_board(p) ==> #[trigger] at(final(self).grid(), p) == match start_piece(color, p) {
                    Some(pc) => Some(pc),
                    None => at(old(self).grid(), p),
                }
                &&& final(self).king_pos(color) == (4usize, home_row(color))
                &&& final(self).king_pos(opposite(color)) == old(self).king_pos(opposite(color))
                &&& final(self).moves_made() == old(self).moves_made()
                &&& final(self).turn_color() == old(self).turn_color()
                &&& final(self).ply() == old(self).ply()
                &&& final(self).passant() == old(self).passant()
            },
    {
        let ghost g = self.grid();
        let pawn_row: usize = if color == Color::White { 1 } else { 6 };
        let back_row: usize = if color == Color::White { 0 } else { 7 };
        let mut x: usize = 0;
        while x < 8
            invariant
                self.wf(),
                g == self.grid(),
                x <= 8,
                pawn_row == pawn_row_of(color),
                back_row == home_row(color),
                forall|p: Pos| on_board(p) && p.0 < x && #[trigger] start_piece(color, p).is_some() ==> at(g, p).is_none(),
            decreases 8 - x,
        {
            if self.piece_at((x, pawn_row)).is_some() || self.piece_at((x, back_row)).is_some() {
                assert(start_piece(color, (x, pawn_row)).is_some());
                assert(start_piece(color, (x, back_row)).is_some());
                return Err(SetupError::Occupied);
            }
            x += 1;
        }
        let king_placed = if color == Color::White {
            !(self.white_king.0 == UNSET && self.white_king.1 == UNSET)
        } else {
            !(self.black_king.0 == UNSET && self.black_king.1 == UNSET)
        };
        if king_placed {
            return Err(SetupError::DuplicateKing);
        }
        let ghost start = *self;
        let mut x: usize = 0;
        while x < 8
            invariant
                self.wf(),
                x <= 8,
                pawn_row == pawn_row_of(color),
                back_row == home_row(color),
                self.king_pos(opposite(color)) == start.king_pos(opposite(color)),
                x <= 4 ==> self.king_pos(color) == unset(),
                x > 4 ==> self.king_pos(color) == (4usize, home_row(color)),
                self.moves_made() == start.moves_made(),
                self.turn_color() == start.turn_color(),
                self.ply() == start.ply(),
                self.passant() == start.passant(),
                forall|p: Pos| on_board(p) && start_piece(color, p).is_some() ==> at(start.grid(), p).is_none(),
                forall|p: Pos| on_board(p) ==> #[trigger] at(self.grid(), p) == if p.0 < x && start_piece(color, p).is_some() {
                    start_piece(color, p)
                } else {
                    at(start.grid(), p)
                },
            decreases 8 - x,
        {
            assert(start_piece(color, (x, pawn_row)).is_some());
            assert(start_piece(color, (x, back_row)).is_some());
            let ghost mid = self.grid();
            let _ = self.add_piece(piece_make(color, PieceType::Pawn), (x, pawn_row));
            let ghost mid2 = self.grid();
            assert(at(mid2, (x, back_row)) == at(mid, (x, back_row)));
            let _ = self.add_piece(piece_make(color, back_rank_type(x)), (x, back_row));
            proof {
                assert forall|p: Pos| on_board(p) implies #[trigger] at(self.grid(), p) == if p.0 < x + 1 && start_piece(color, p).is_some() {
                    start_piece(color, p)
                } else {
                    at(start.grid(), p)
                } by {
                    if p != (x, pawn_row) && p != (x, back_row) {
                        assert(sq(p) != sq((x, pawn_row)) && sq(p) != sq((x, back_row)));
                        assert(at(self.grid(), p) == at(mid, p));
                    }
                }
            }
            x += 1;
        }
        Ok(())
    }

    /// The 64 squares, row by row: square (x, y) is entry `y * 8 + x`.
    pub fn ref_board(&self) -> (r: &Vec<Option<Piece>>)
        ensures
            r@ == self.grid(),
    {
        &self.board
    }
}

/// The piece type that starts on column `x` of the home row.
fn back_rank_type(x: usize) -> (r: PieceType)
    requires
        x < 8,
    ensures
        r == back_rank(x),
{
    match x {
        0 => PieceType::Rook,
        1 => PieceType::Knight,
        2 => PieceType::Bishop,
        3 => PieceType::Queen,
        4 => PieceType::King,
        5 => PieceType::Bishop,
        6 => PieceType::Knight,
        _ => PieceType::Rook,
    }
}

/// Whether `v` holds the square `q`.
fn has_pos(v: &Vec<Pos>, q: Pos) -> (r: bool)
    ensures
        r == v@.contains(q),
{
    let mut i: usize = 0;
    while i < v.len()
        invariant
            i <= v@.len(),
            forall|j: int| 0 <= j < i ==> v@[j] != q,
        decreases v@.len() - i,
    {
        if v[i].0 == q.0 && v[i].1 == q.1 {
            return true;
        }
        i += 1;
    }
    false
}

/// An empty board: no pieces, no kings placed, White to move on ply one.
pub fn init_board() -> (r: ChessBoard)
    ensures
        r.wf(),
        forall|p: Pos| on_board(p) ==> (#[trigger] at(r.grid(), p)).is_none(),
        r.king_pos(Color::White) == crate::rules::unset(),
        r.king_pos(Color::Black) == crate::rules::unset(),
        r.moves_made().len() == 0,
        r.passant().is_none(),
        r.turn_color() == Color::White,
        r.ply() == 1,
{
    let mut board: Vec<Option<Piece>> = Vec::new();
    let mut i: usize = 0;
    while i < 64
        invariant
            i <= 64,
            board@.len() == i,
            forall|j: int| 0 <= j < i ==> board@[j].is_none(),
        decreases 64 - i,
    {
        board.push(None);
        i += 1;
    }
    ChessBoard {
        board,
        white_king: (UNSET, UNSET),
        black_king: (UNSET, UNSET),
        passant_connection: None,
        history: Vec::new(),
        turn: (Color::White, 1),
    }
}

} // verus!
