//! The board state machine: piece arena, lazy pawn materialization,
//! collision walking, move application (capture, en passant, castling),
//! promotion, legality orchestration, and the monotonic turn counter.
//!
//! Every operation's contract equates the new state with a specification-
//! level model of the operation (`materialize`, `move_outcome`, ...), so
//! the exact effect on the board — including which pawns a lookup
//! materializes on the way — is pinned down for every input.

use vstd::prelude::*;

use num_bigint::BigInt;

use crate::bigint::{big_abs, big_add, big_add_i64, big_clone, big_eq, big_from_i64, big_lt,
    big_sub, big_value};
use crate::moves::Move;
use crate::pawn_rank::PawnRank;
use crate::piece::{Color, Piece, PieceKind, PieceView};
use crate::rules::PieceRules;

verus! {

/// Rank on which black pawns materialize when first touched.
pub open spec fn black_start_rank() -> int {
    1
}

/// Rank on which white pawns materialize when first touched.
pub open spec fn white_start_rank() -> int {
    6
}

/// Mathematical image of a board: the turn counter, the piece arena, the
/// two sets of already-materialized files, and the move history.
#[verifier::ext_equal]
pub ghost struct BoardView {
    pub turn: int,
    pub pieces: Seq<PieceView>,
    pub white_marked: Set<int>,
    pub black_marked: Set<int>,
    pub moves: Seq<int>,
}

pub open spec fn piece_active_at(p: PieceView, r: int, f: int) -> bool {
    &&& !p.captured
    &&& p.rank == r
    &&& p.file == f
}

pub open spec fn occ_from(pieces: Seq<PieceView>, r: int, f: int, i: int) -> Option<int>
    decreases pieces.len() - i,
{
    if i < 0 || i >= pieces.len() {
        None
    } else if piece_active_at(pieces[i], r, f) {
        Some(i)
    } else {
        occ_from(pieces, r, f, i + 1)
    }
}

/// Identity of the first non-captured piece standing at the square.
pub open spec fn occupant(pieces: Seq<PieceView>, r: int, f: int) -> Option<int> {
    occ_from(pieces, r, f, 0)
}

pub open spec fn default_pawn(color: Color, r: int, f: int) -> PieceView {
    PieceView { kind: PieceKind::Pawn, color, rank: r, file: f, captured: false }
}

/// The materialization step a lookup at `(r, f)` performs before
/// searching: on a start rank whose file is not yet marked, append the
/// default pawn and mark the file.
pub open spec fn materialize(b: BoardView, r: int, f: int) -> BoardView {
    let b1 = if r == black_start_rank() && !b.black_marked.contains(f) {
        BoardView {
            pieces: b.pieces.push(default_pawn(Color::Black, r, f)),
            black_marked: b.black_marked.insert(f),
            ..b
        }
    } else {
        b
    };
    if r == white_start_rank() && !b1.white_marked.contains(f) {
        BoardView {
            pieces: b1.pieces.push(default_pawn(Color::White, r, f)),
            white_marked: b1.white_marked.insert(f),
            ..b1
        }
    } else {
        b1
    }
}

/// What a lookup at `(r, f)` returns: the occupant after materialization.
pub open spec fn lookup_result(b: BoardView, r: int, f: int) -> Option<int> {
    occupant(materialize(b, r, f).pieces, r, f)
}

pub open spec fn opt_ids_match(r: Option<usize>, s: Option<int>) -> bool {
    match r {
        Some(a) => s == Some(a as int),
        None => s is None,
    }
}

/// No two non-captured pieces share a square.
pub open spec fn pieces_unique(pieces: Seq<PieceView>) -> bool {
    forall|i: int, j: int|
        #![trigger pieces[i], pieces[j]]
        0 <= i < pieces.len() && 0 <= j < pieces.len() && i != j && !pieces[i].captured
            && !pieces[j].captured ==> !(pieces[i].rank == pieces[j].rank && pieces[i].file
            == pieces[j].file)
}

/// Well-formedness: occupancy is unique, and every non-captured piece
/// standing on a start rank has its file marked in the matching tracker,
/// so a lookup never materializes a pawn onto an occupied square.
pub open spec fn board_wf(b: BoardView) -> bool {
    &&& pieces_unique(b.pieces)
    &&& forall|i: int|
        #![trigger b.pieces[i]]
        0 <= i < b.pieces.len() && !b.pieces[i].captured && b.pieces[i].rank == black_start_rank()
            ==> b.black_marked.contains(b.pieces[i].file)
    &&& forall|i: int|
        #![trigger b.pieces[i]]
        0 <= i < b.pieces.len() && !b.pieces[i].captured && b.pieces[i].rank == white_start_rank()
            ==> b.white_marked.contains(b.pieces[i].file)
}

pub struct Board {
    pub turn: BigInt,
    pub pieces: Vec<Piece>,
    pub white_pawns: PawnRank,
    pub black_pawns: PawnRank,
    pub moves: Vec<Move>,
}

impl View for Board {
    type V = BoardView;

    open spec fn view(&self) -> BoardView {
        BoardView {
            turn: big_value(self.turn),
            pieces: self.pieces@.map_values(|p: Piece| p@),
            white_marked: self.white_pawns@,
            black_marked: self.black_pawns@,
            moves: self.moves@.map_values(|m: Move| m@),
        }
    }
}

/// The sixteen back-rank pieces, in placement order: for each file from
/// 0 to 7 the black piece on rank 0, then the white piece on rank 7;
/// files hold rook, knight, bishop, queen, king, bishop, knight, rook.
pub open spec fn back_rank_pieces() -> Seq<PieceView> {
    seq![
        PieceView { kind: PieceKind::Rook, color: Color::Black, rank: 0, file: 0, captured: false },
        PieceView { kind: PieceKind::Rook, color: Color::White, rank: 7, file: 0, captured: false },
        PieceView {
            kind: PieceKind::Knight,
            color: Color::Black,
            rank: 0,
            file: 1,
            captured: false,
        },
        PieceView {
            kind: PieceKind::Knight,
            color: Color::White,
            rank: 7,
            file: 1,
            captured: false,
        },
        PieceView {
            kind: PieceKind::Bishop,
            color: Color::Black,
            rank: 0,
            file: 2,
            captured: false,
        },
        PieceView {
            kind: PieceKind::Bishop,
            color: Color::White,
            rank: 7,
            file: 2,
            captured: false,
        },
        PieceView {
            kind: PieceKind::Queen,
            color: Color::Black,
            rank: 0,
            file: 3,
            captured: false,
        },
        PieceView {
            kind: PieceKind::Queen,
            color: Color::White,
            rank: 7,
            file: 3,
            captured: false,
        },
        PieceView { kind: PieceKind::King, color: Color::Black, rank: 0, file: 4, captured: false },
        PieceView { kind: PieceKind::King, color: Color::White, rank: 7, file: 4, captured: false },
        PieceView {
            kind: PieceKind::Bishop,
            color: Color::Black,
            rank: 0,
            file: 5,
            captured: false,
        },
        PieceView {
            kind: PieceKind::Bishop,
            color: Color::White,
            rank: 7,
            file: 5,
            captured: false,
        },
        PieceView {
            kind: PieceKind::Knight,
            color: Color::Black,
            rank: 0,
            file: 6,
            captured: false,
        },
        PieceView {
            kind: PieceKind::Knight,
            color: Color::White,
            rank: 7,
            file: 6,
            captured: false,
        },
        PieceView { kind: PieceKind::Rook, color: Color::Black, rank: 0, file: 7, captured: false },
        PieceView { kind: PieceKind::Rook, color: Color::White, rank: 7, file: 7, captured: false },
    ]
}

pub open spec fn empty_board() -> BoardView {
    BoardView {
        turn: 0,
        pieces: Seq::empty(),
        white_marked: Set::empty(),
        black_marked: Set::empty(),
        moves: Seq::empty(),
    }
}

impl Board {
    /// A board with no pieces, no marks, no history, turn 0.
    pub fn new() -> (r: Board)
        ensures
            r@ == empty_board(),
            board_wf(r@),
    {
        let r = Board {
            turn: big_from_i64(0),
            pieces: Vec::new(),
            white_pawns: PawnRank::new(),
            black_pawns: PawnRank::new(),
            moves: Vec::new(),
        };
        proof {
            assert(r@.pieces =~= Seq::<PieceView>::empty());
            assert(r@.moves =~= Seq::<int>::empty());
            assert(r@ =~= empty_board());
        }
        r
    }

    /// Append a piece to the arena; its identity is the new index.
    /// Placement is unchecked: preserving well-formedness is up to the
    /// caller, as the conditional clause states.
    pub fn place_piece(&mut self, piece: Piece) -> (r: Option<usize>)
        ensures
            final(self)@ == (BoardView { pieces: old(self)@.pieces.push(piece@), ..old(self)@ }),
            opt_ids_match(r, Some(old(self)@.pieces.len() as int)),
            board_wf(old(self)@) && !piece@.captured ==> (board_wf(final(self)@) <==> ({
                &&& occupant(old(self)@.pieces, piece@.rank, piece@.file) is None
                &&& (piece@.rank == black_start_rank() ==> old(self)@.black_marked.contains(
                    piece@.file,
                ))
                &&& (piece@.rank == white_start_rank() ==> old(self)@.white_marked.contains(
                    piece@.file,
                ))
            })),
    {
        let ghost prev = self@;
        let ghost pv = piece@;
        self.pieces.push(piece);
        proof {
            assert(self@.pieces =~= prev.pieces.push(pv));
            assert(self@ =~= (BoardView { pieces: prev.pieces.push(pv), ..prev }));
            if board_wf(prev) && !pv.captured {
                lemma_push_wf(prev, pv);
            }
        }
        Some(self.pieces.len() - 1)
    }
}

/// Appending a non-captured piece keeps the board well-formed exactly
/// when its square is free and, on a start rank, already marked.
pub proof fn lemma_push_wf(b: BoardView, p: PieceView)
    requires
        board_wf(b),
        !p.captured,
    ensures
        board_wf(BoardView { pieces: b.pieces.push(p), ..b }) <==> ({
            &&& occupant(b.pieces, p.rank, p.file) is None
            &&& (p.rank == black_start_rank() ==> b.black_marked.contains(p.file))
            &&& (p.rank == white_start_rank() ==> b.white_marked.contains(p.file))
        }),
{
    let b2 = BoardView { pieces: b.pieces.push(p), ..b };
    let n = b.pieces.len() as int;
    lemma_occ_from_props(b.pieces, p.rank, p.file, 0);
    assert forall|i: int| 0 <= i < b2.pieces.len() implies (if i < n {
        b2.pieces[i] == b.pieces[i]
    } else {
        b2.pieces[i] == p
    }) by {}
    if occupant(b.pieces, p.rank, p.file) is None && (p.rank == black_start_rank()
        ==> b.black_marked.contains(p.file)) && (p.rank == white_start_rank()
        ==> b.white_marked.contains(p.file)) {
        assert(pieces_unique(b2.pieces));
        assert(board_wf(b2));
    }
    if board_wf(b2) {
        if occupant(b.pieces, p.rank, p.file) is Some {
            let k = occupant(b.pieces, p.rank, p.file).unwrap();
            assert(piece_active_at(b2.pieces[k], p.rank, p.file));
            assert(b2.pieces[n] == p);
            assert(false);
        }
    }
}

impl Board {
    /// Bulk placement of the standard back ranks: black pieces on rank
    /// 0 and white pieces on rank 7, appended in the fixed order
    /// `back_rank_pieces` lists. Meant to be invoked once, on the empty
    /// board, by the owning process.
    pub fn setup_back_ranks(&mut self)
        ensures
            final(self)@ == (BoardView {
                pieces: old(self)@.pieces + back_rank_pieces(),
                ..old(self)@
            }),
            old(self)@ == empty_board() ==> board_wf(final(self)@),
    {
        let _ = self.place_piece(
            Piece::new(PieceKind::Rook, Color::Black, big_from_i64(0), big_from_i64(0)),
        );
        let _ = self.place_piece(
            Piece::new(PieceKind::Rook, Color::White, big_from_i64(7), big_from_i64(0)),
        );
        let _ = self.place_piece(
            Piece::new(PieceKind::Knight, Color::Black, big_from_i64(0), big_from_i64(1)),
        );
        let _ = self.place_piece(
            Piece::new(PieceKind::Knight, Color::White, big_from_i64(7), big_from_i64(1)),
        );
        let _ = self.place_piece(
            Piece::new(PieceKind::Bishop, Color::Black, big_from_i64(0), big_from_i64(2)),
        );
        let _ = self.place_piece(
            Piece::new(PieceKind::Bishop, Color::White, big_from_i64(7), big_from_i64(2)),
        );
        let _ = self.place_piece(
            Piece::new(PieceKind::Queen, Color::Black, big_from_i64(0), big_from_i64(3)),
        );
        let _ = self.place_piece(
            Piece::new(PieceKind::Queen, Color::White, big_from_i64(7), big_from_i64(3)),
        );
        let _ = self.place_piece(
            Piece::new(PieceKind::King, Color::Black, big_from_i64(0), big_from_i64(4)),
        );
        let _ = self.place_piece(
            Piece::new(PieceKind::King, Color::White, big_from_i64(7), big_from_i64(4)),
        );
        let _ = self.place_piece(
            Piece::new(PieceKind::Bishop, Color::Black, big_from_i64(0), big_from_i64(5)),
        );
        let _ = self.place_piece(
            Piece::new(PieceKind::Bishop, Color::White, big_from_i64(7), big_from_i64(5)),
        );
        let _ = self.place_piece(
            Piece::new(PieceKind::Knight, Color::Black, big_from_i64(0), big_from_i64(6)),
        );
        let _ = self.place_piece(
            Piece::new(PieceKind::Knight, Color::White, big_from_i64(7), big_from_i64(6)),
        );
        let _ = self.place_piece(
            Piece::new(PieceKind::Rook, Color::Black, big_from_i64(0), big_from_i64(7)),
        );
        let _ = self.place_piece(
            Piece::new(PieceKind::Rook, Color::White, big_from_i64(7), big_from_i64(7)),
        );
        proof {
            assert(self@.pieces =~= old(self)@.pieces + back_rank_pieces());
            assert(self@ =~= (BoardView {
                pieces: old(self)@.pieces + back_rank_pieces(),
                ..old(self)@
            }));
        }
    }

    /// Lookup with lazy materialization: touching a start-rank square
    /// whose file is untouched first creates that square's default pawn,
    /// then the arena is searched for a non-captured piece at the square.
    #[verifier::loop_isolation(false)]
    pub fn get_piece_at(&mut self, rank: &BigInt, file: &BigInt) -> (r: Option<usize>)
        ensures
            final(self)@ == materialize(old(self)@, big_value(*rank), big_value(*file)),
            opt_ids_match(r, lookup_result(old(self)@, big_value(*rank), big_value(*file))),
            board_wf(old(self)@) ==> board_wf(final(self)@),
    {
        let ghost rv = big_value(*rank);
        let ghost fv = big_value(*file);
        proof {
            if board_wf(old(self)@) {
                lemma_materialize_wf(old(self)@, rv, fv);
            }
        }
        let one = big_from_i64(1);
        if big_eq(rank, &one) && !self.black_pawns.has_materialized(file) {
            self.black_pawns.mark_materialized(file);
            let _ = self.place_piece(
                Piece::new(PieceKind::Pawn, Color::Black, big_clone(rank), big_clone(file)),
            );
        }
        let six = big_from_i64(6);
        if big_eq(rank, &six) && !self.white_pawns.has_materialized(file) {
            self.white_pawns.mark_materialized(file);
            let _ = self.place_piece(
                Piece::new(PieceKind::Pawn, Color::White, big_clone(rank), big_clone(file)),
            );
        }
        proof {
            assert(self@ =~= materialize(old(self)@, rv, fv));
        }
        let ghost m = self@;
        let mut i: usize = 0;
        while i < self.pieces.len()
            invariant
                0 <= i as int <= m.pieces.len(),
                self@ == m,
                occ_from(m.pieces, rv, fv, 0) == occ_from(m.pieces, rv, fv, i as int),
            decreases m.pieces.len() - i,
        {
            let p = &self.pieces[i];
            if big_eq(&p.rank, rank) && big_eq(&p.file, file) && !p.captured {
                assert(piece_active_at(m.pieces[i as int], rv, fv));
                return Some(i);
            }
            assert(!piece_active_at(m.pieces[i as int], rv, fv));
            i += 1;
        }
        None
    }

    /// Rewrite the type label of the piece at the square (after the
    /// materialization the lookup performs); returns its identity, or
    /// absence if the square is empty. Does not touch capture state, the
    /// history, or the turn counter.
    pub fn promote(&mut self, rank: &BigInt, file: &BigInt, new_type: PieceKind) -> (r: Option<
        usize,
    >)
        ensures
            final(self)@ == promote_outcome(
                old(self)@,
                big_value(*rank),
                big_value(*file),
                new_type,
            ).0,
            opt_ids_match(
                r,
                promote_outcome(old(self)@, big_value(*rank), big_value(*file), new_type).1,
            ),
            final(self)@.turn == old(self)@.turn,
            board_wf(old(self)@) ==> board_wf(final(self)@),
    {
        let ghost rv = big_value(*rank);
        let ghost fv = big_value(*file);
        match self.get_piece_at(rank, file) {
            Some(i) => {
                let ghost b1 = self@;
                proof {
                    lemma_occ_from_props(b1.pieces, rv, fv, 0);
                }
                let p = &mut self.pieces[i];
                p.set_kind(new_type);
                proof {
                    assert(self@.pieces =~= b1.pieces.update(
                        i as int,
                        PieceView { kind: new_type, ..b1.pieces[i as int] },
                    ));
                    assert(self@ =~= promote_outcome(old(self)@, rv, fv, new_type).0);
                    if board_wf(old(self)@) {
                        lemma_materialize_wf(old(self)@, rv, fv);
                        lemma_update_keeps_wf(
                            b1,
                            i as int,
                            PieceView { kind: new_type, ..b1.pieces[i as int] },
                        );
                    }
                }
                Some(i)
            },
            None => None,
        }
    }

    /// Apply a move without any legality check — the caller is expected
    /// to have verified legality beforehand. In order: capture the
    /// destination's occupant; else, for a pawn, capture a distinct piece
    /// on the mover's rank at the destination file (en passant by
    /// positional pattern); else, for a king moving two or more files to
    /// file 2 or 6, relocate the rook from file 0 to 3 or from 7 to 5 on
    /// the mover's rank. Then relocate the mover and append the history
    /// entry. Absence of the mover, or of the castle rook, aborts with
    /// `None`; a committed move returns the success marker `Some(0)`.
    pub fn do_move(
        &mut self,
        rank: &BigInt,
        file: &BigInt,
        to_rank: &BigInt,
        to_file: &BigInt,
    ) -> (r: Option<usize>)
        ensures
            final(self)@ == move_outcome(
                old(self)@,
                big_value(*rank),
                big_value(*file),
                big_value(*to_rank),
                big_value(*to_file),
            ).0,
            opt_ids_match(
                r,
                move_outcome(
                    old(self)@,
                    big_value(*rank),
                    big_value(*file),
                    big_value(*to_rank),
                    big_value(*to_file),
                ).1,
            ),
            final(self)@.turn == old(self)@.turn,
            board_wf(old(self)@) && move_wf_cond(
                old(self)@,
                big_value(*rank),
                big_value(*file),
                big_value(*to_rank),
                big_value(*to_file),
            ) ==> board_wf(final(self)@),
    {
        let ghost fr = big_value(*rank);
        let ghost ff = big_value(*file);
        let ghost tr = big_value(*to_rank);
        let ghost tf = big_value(*to_file);
        proof {
            if board_wf(old(self)@) && move_wf_cond(old(self)@, fr, ff, tr, tf) {
                lemma_move_outcome_wf(old(self)@, fr, ff, tr, tf);
            }
            lemma_materialize_frame(old(self)@, fr, ff);
        }
        let from = match self.get_piece_at(rank, file) {
            Some(i) => i,
            None => {
                return None;
            },
        };
        let ghost b1 = self@;
        proof {
            lemma_occ_from_props(b1.pieces, fr, ff, 0);
            lemma_materialize_frame(b1, tr, tf);
        }
        if let Some(to) = self.get_piece_at(to_rank, to_file) {
            let ghost b2 = self@;
            proof {
                lemma_occ_from_props(b2.pieces, tr, tf, 0);
            }
            let p = &mut self.pieces[to];
            p.capture();
            proof {
                assert(self@.pieces =~= capture_piece(b2, to as int).pieces);
                assert(self@ =~= capture_piece(b2, to as int));
            }
        } else {
            let ghost b2 = self@;
            if self.pieces[from].kind == PieceKind::Pawn {
                proof {
                    lemma_materialize_frame(b2, fr, tf);
                }
                if let Some(to2) = self.get_piece_at(rank, to_file) {
                    let ghost b3 = self@;
                    proof {
                        lemma_occ_from_props(b3.pieces, fr, tf, 0);
                    }
                    if from != to2 {
                        let p = &mut self.pieces[to2];
                        p.capture();
                        proof {
                            assert(self@.pieces =~= capture_piece(b3, to2 as int).pieces);
                            assert(self@ =~= capture_piece(b3, to2 as int));
                        }
                    }
                }
            } else {
                let is_king = self.pieces[from].kind == PieceKind::King;
                let delta = big_sub(file, to_file);
                let dist = big_abs(&delta);
                let two = big_from_i64(2);
                if is_king && !big_lt(&dist, &two) {
                    if big_eq(to_file, &two) {
                        let zero = big_from_i64(0);
                        proof {
                            lemma_materialize_frame(b2, fr, 0);
                        }
                        match self.get_piece_at(rank, &zero) {
                            Some(rook) => {
                                let ghost bc = self@;
                                proof {
                                    lemma_occ_from_props(bc.pieces, fr, 0, 0);
                                }
                                let three = big_from_i64(3);
                                let rk = big_clone(rank);
                                let p = &mut self.pieces[rook];
                                p.goto(&rk, &three);
                                proof {
                                    assert(self@.pieces =~= relocate_piece(
                                        bc,
                                        rook as int,
                                        fr,
                                        3,
                                    ).pieces);
                                    assert(self@ =~= relocate_piece(bc, rook as int, fr, 3));
                                }
                            },
                            None => {
                                return None;
                            },
                        }
                    }
                    let six = big_from_i64(6);
                    if big_eq(to_file, &six) {
                        let seven = big_from_i64(7);
                        proof {
                            lemma_materialize_frame(b2, fr, 7);
                        }
                        match self.get_piece_at(rank, &seven) {
                            Some(rook) => {
                                let ghost bc = self@;
                                proof {
                                    lemma_occ_from_props(bc.pieces, fr, 7, 0);
                                }
                                let five = big_from_i64(5);
                                let rk = big_clone(rank);
                                let p = &mut self.pieces[rook];
                                p.goto(&rk, &five);
                                proof {
                                    assert(self@.pieces =~= relocate_piece(
                                        bc,
                                        rook as int,
                                        fr,
                                        5,
                                    ).pieces);
                                    assert(self@ =~= relocate_piece(bc, rook as int, fr, 5));
                                }
                            },
                            None => {
                                return None;
                            },
                        }
                    }
                }
            }
        }
        let ghost b4 = self@;
        let p = &mut self.pieces[from];
        p.goto(to_rank, to_file);
        self.moves.push(Move::new(from));
        proof {
            assert(self@.pieces =~= relocate_piece(b4, from as int, tr, tf).pieces);
            assert(self@.moves =~= push_move_entry(
                relocate_piece(b4, from as int, tr, tf),
                from as int,
            ).moves);
            assert(self@ =~= push_move_entry(relocate_piece(b4, from as int, tr, tf), from as int));
        }
        Some(0)
    }

    /// Whether the path strictly between `from` and `to` is free of
    /// pieces: walks one square at a time, each axis stepping toward its
    /// target, looking every intermediate square up (and so materializing
    /// start-rank pawns on the way); the first occupied square answers
    /// `false`. Meaningful for the eight principal directions, where the
    /// walk visits exactly the squares strictly between the two.
    #[verifier::loop_isolation(false)]
    pub fn get_collision(
        &mut self,
        from_rank: &BigInt,
        from_file: &BigInt,
        to_rank: &BigInt,
        to_file: &BigInt,
    ) -> (r: bool)
        ensures
            final(self)@ == walk(
                old(self)@,
                big_value(*from_rank) + sgn(big_value(*to_rank) - big_value(*from_rank)),
                big_value(*from_file) + sgn(big_value(*to_file) - big_value(*from_file)),
                big_value(*to_rank),
                big_value(*to_file),
            ).0,
            r == walk(
                old(self)@,
                big_value(*from_rank) + sgn(big_value(*to_rank) - big_value(*from_rank)),
                big_value(*from_file) + sgn(big_value(*to_file) - big_value(*from_file)),
                big_value(*to_rank),
                big_value(*to_file),
            ).1,
            board_wf(old(self)@) ==> board_wf(final(self)@),
    {
        let ghost trv = big_value(*to_rank);
        let ghost tfv = big_value(*to_file);
        let dr0 = step_toward(from_rank, to_rank);
        let mut rank = big_add_i64(from_rank, dr0);
        let df0 = step_toward(from_file, to_file);
        let mut file = big_add_i64(from_file, df0);
        let ghost sr = big_value(rank);
        let ghost sf = big_value(file);
        while !(big_eq(&rank, to_rank) && big_eq(&file, to_file))
            invariant
                walk(self@, big_value(rank), big_value(file), trv, tfv) == walk(
                    old(self)@,
                    sr,
                    sf,
                    trv,
                    tfv,
                ),
                board_wf(old(self)@) ==> board_wf(self@),
            decreases abs_sp(trv - big_value(rank)) + abs_sp(tfv - big_value(file)),
        {
            if let Some(_hit) = self.get_piece_at(&rank, &file) {
                return false;
            }
            let dr = step_toward(&rank, to_rank);
            rank = big_add_i64(&rank, dr);
            let df = step_toward(&file, to_file);
            file = big_add_i64(&file, df);
        }
        true
    }

    /// Whether moving from `(from_rank, from_file)` to the destination is
    /// legal: a same-square request is always illegal, an empty origin is
    /// illegal, shape legality is delegated to the rules capability, and
    /// — whatever the capability answered — a destination occupied by a
    /// piece of the mover's color is illegal. Pure but for the
    /// materialization of the two squares it looks up.
    pub fn is_move_legal<R: PieceRules>(
        &mut self,
        rules: &R,
        from_rank: &BigInt,
        from_file: &BigInt,
        to_rank: &BigInt,
        to_file: &BigInt,
    ) -> (r: bool)
        ensures
            final(self)@ == legal_outcome(
                *rules,
                old(self)@,
                big_value(*from_rank),
                big_value(*from_file),
                big_value(*to_rank),
                big_value(*to_file),
            ).0,
            r == legal_outcome(
                *rules,
                old(self)@,
                big_value(*from_rank),
                big_value(*from_file),
                big_value(*to_rank),
                big_value(*to_file),
            ).1,
            big_value(*from_rank) == big_value(*to_rank) && big_value(*from_file) == big_value(
                *to_file,
            ) ==> r == false,
            final(self)@.turn == old(self)@.turn,
            board_wf(old(self)@) ==> board_wf(final(self)@),
    {
        let ghost fr = big_value(*from_rank);
        let ghost ff = big_value(*from_file);
        let ghost tr = big_value(*to_rank);
        let ghost tf = big_value(*to_file);
        if big_eq(from_rank, to_rank) && big_eq(from_file, to_file) {
            return false;
        }
        proof {
            lemma_materialize_frame(old(self)@, fr, ff);
        }
        match self.get_piece_at(from_rank, from_file) {
            Some(p) => {
                let ghost b1 = self@;
                proof {
                    lemma_occ_from_props(b1.pieces, fr, ff, 0);
                    lemma_materialize_frame(b1, tr, tf);
                }
                let good_so_far = rules.can_move(&*self, p, to_rank, to_file);
                if let Some(other) = self.get_piece_at(to_rank, to_file) {
                    let ghost b2 = self@;
                    proof {
                        lemma_occ_from_props(b2.pieces, tr, tf, 0);
                    }
                    if self.pieces[p].color == self.pieces[other].color {
                        return false;
                    }
                }
                good_so_far
            },
            None => false,
        }
    }

    /// Apply-move-if-legal: the mutation a move request commits. When the
    /// legality query answers yes, the move is applied and the turn
    /// counter advances by one; otherwise the board is left exactly as
    /// the (materializing) legality query left it and the turn stands.
    /// Promotion does not pass through here, so a promotion alone never
    /// advances the turn.
    pub fn try_move<R: PieceRules>(
        &mut self,
        rules: &R,
        from_rank: &BigInt,
        from_file: &BigInt,
        to_rank: &BigInt,
        to_file: &BigInt,
    ) -> (r: bool)
        ensures
            r == legal_outcome(
                *rules,
                old(self)@,
                big_value(*from_rank),
                big_value(*from_file),
                big_value(*to_rank),
                big_value(*to_file),
            ).1,
            !r ==> final(self)@ == legal_outcome(
                *rules,
                old(self)@,
                big_value(*from_rank),
                big_value(*from_file),
                big_value(*to_rank),
                big_value(*to_file),
            ).0,
            r ==> final(self)@ == bump_turn(
                move_outcome(
                    legal_outcome(
                        *rules,
                        old(self)@,
                        big_value(*from_rank),
                        big_value(*from_file),
                        big_value(*to_rank),
                        big_value(*to_file),
                    ).0,
                    big_value(*from_rank),
                    big_value(*from_file),
                    big_value(*to_rank),
                    big_value(*to_file),
                ).0,
            ),
            r ==> final(self)@.turn == old(self)@.turn + 1,
            !r ==> final(self)@.turn == old(self)@.turn,
    {
        if self.is_move_legal(rules, from_rank, from_file, to_rank, to_file) {
            let _ = self.do_move(from_rank, from_file, to_rank, to_file);
            let ghost moved = self@;
            self.turn = big_add_i64(&self.turn, 1);
            proof {
                assert(self@ =~= bump_turn(moved));
            }
            true
        } else {
            false
        }
    }

    /// Destinations within the window `[win_x, win_x + zoom) x
    /// [win_y, win_y + zoom)` that are legal for the piece at
    /// `(rank, file)`, first axis outer, second inner, both ascending —
    /// a finite viewport onto the unbounded board. A non-positive `zoom`
    /// yields an empty list.
    #[verifier::loop_isolation(false)]
    pub fn get_legal_moves<R: PieceRules>(
        &mut self,
        rules: &R,
        rank: &BigInt,
        file: &BigInt,
        win_x: &BigInt,
        win_y: &BigInt,
        zoom: &BigInt,
    ) -> (r: Vec<(BigInt, BigInt)>)
        ensures
            final(self)@ == window_moves(
                *rules,
                old(self)@,
                big_value(*rank),
                big_value(*file),
                big_value(*win_x),
                big_value(*win_x) + big_value(*zoom),
                big_value(*win_y),
                big_value(*win_y) + big_value(*zoom),
            ).0,
            coords_of(r@) == window_moves(
                *rules,
                old(self)@,
                big_value(*rank),
                big_value(*file),
                big_value(*win_x),
                big_value(*win_x) + big_value(*zoom),
                big_value(*win_y),
                big_value(*win_y) + big_value(*zoom),
            ).1,
            big_value(*zoom) <= 0 ==> r@.len() == 0,
            board_wf(old(self)@) ==> board_wf(final(self)@),
    {
        let ghost frv = big_value(*rank);
        let ghost ffv = big_value(*file);
        let ghost x0 = big_value(*win_x);
        let ghost y0 = big_value(*win_y);
        let ghost xe = big_value(*win_x) + big_value(*zoom);
        let ghost ye = big_value(*win_y) + big_value(*zoom);
        let mut results: Vec<(BigInt, BigInt)> = Vec::new();
        let mut xx = big_clone(win_x);
        let winxwidth = big_add(win_x, zoom);
        let winyheight = big_add(win_y, zoom);
        proof {
            assert(coords_of(results@) =~= Seq::<(int, int)>::empty());
        }
        while big_lt(&xx, &winxwidth)
            invariant
                window_moves(*rules, old(self)@, frv, ffv, x0, xe, y0, ye) == ({
                    let rem = window_moves(*rules, self@, frv, ffv, big_value(xx), xe, y0, ye);
                    (rem.0, coords_of(results@) + rem.1)
                }),
                board_wf(old(self)@) ==> board_wf(self@),
            decreases (if big_value(xx) < xe {
                xe - big_value(xx)
            } else {
                0
            }),
        {
            let ghost row_b = self@;
            let ghost xv = big_value(xx);
            let ghost acc0 = coords_of(results@);
            let mut yy = big_clone(win_y);
            proof {
                let row = window_row(*rules, row_b, frv, ffv, xv, y0, ye);
                let rest = window_moves(*rules, row.0, frv, ffv, xv + 1, xe, y0, ye);
                assert(acc0 + (row.1 + rest.1) =~= (acc0 + row.1) + rest.1);
            }
            while big_lt(&yy, &winyheight)
                invariant
                    big_value(xx) == xv,
                    window_moves(*rules, old(self)@, frv, ffv, x0, xe, y0, ye) == ({
                        let rowrem = window_row(
                            *rules,
                            self@,
                            frv,
                            ffv,
                            xv,
                            big_value(yy),
                            ye,
                        );
                        let rem = window_moves(*rules, rowrem.0, frv, ffv, xv + 1, xe, y0, ye);
                        (rem.0, (coords_of(results@) + rowrem.1) + rem.1)
                    }),
                    board_wf(old(self)@) ==> board_wf(self@),
                decreases (if big_value(yy) < ye {
                    ye - big_value(yy)
                } else {
                    0
                }),
            {
                let ghost pre = self@;
                let ghost yv = big_value(yy);
                let ghost accy = coords_of(results@);
                if self.is_move_legal(rules, rank, file, &xx, &yy) {
                    results.push((big_clone(&xx), big_clone(&yy)));
                    proof {
                        assert(coords_of(results@) =~= accy + seq![(xv, yv)]);
                    }
                }
                yy = big_add_i64(&yy, 1);
                proof {
                    let step = legal_outcome(*rules, pre, frv, ffv, xv, yv);
                    let rowrem2 = window_row(*rules, self@, frv, ffv, xv, yv + 1, ye);
                    let rem = window_moves(*rules, rowrem2.0, frv, ffv, xv + 1, xe, y0, ye);
                    if step.1 {
                        assert((accy + (seq![(xv, yv)] + rowrem2.1)) + rem.1 =~= ((accy + seq![
                            (xv, yv),
                        ]) + rowrem2.1) + rem.1);
                    }
                }
            }
            xx = big_add_i64(&xx, 1);
            proof {
                let rowrem = window_row(*rules, self@, frv, ffv, xv, big_value(yy), ye);
                assert(rowrem.1 =~= Seq::<(int, int)>::empty());
                assert((coords_of(results@) + rowrem.1) =~= coords_of(results@));
            }
        }
        proof {
            let rem = window_moves(*rules, self@, frv, ffv, big_value(xx), xe, y0, ye);
            assert(rem.1 =~= Seq::<(int, int)>::empty());
            assert(coords_of(results@) + rem.1 =~= coords_of(results@));
        }
        results
    }

    /// Identity of the most recently moved piece, if any move was made.
    pub fn last_move(&self) -> (r: Option<usize>)
        ensures
            match r {
                Some(p) => self@.moves.len() > 0 && p as int == self@.moves.last(),
                None => self@.moves.len() == 0,
            },
    {
        if self.moves.len() == 0 {
            None
        } else {
            Some(self.moves[self.moves.len() - 1].get_piece())
        }
    }

    /// The current turn counter.
    pub fn current_turn(&self) -> (r: &BigInt)
        ensures
            big_value(*r) == self@.turn,
    {
        &self.turn
    }

    /// Whether the board already reached the requested version: a
    /// version-gated read may return exactly when this holds.
    pub fn version_reached(&self, version: &BigInt) -> (r: bool)
        ensures
            r == (self@.turn >= big_value(*version)),
    {
        !big_lt(&self.turn, version)
    }

    /// Identities of all non-captured pieces, in increasing order.
    /// Captured pieces are excluded.
    #[verifier::loop_isolation(false)]
    pub fn active_pieces(&self) -> (r: Vec<usize>)
        ensures
            forall|k: int|
                0 <= k < r@.len() ==> #[trigger] r@[k] < self@.pieces.len() && !self@.pieces[r@[k]
                    as int].captured,
            forall|i: int|
                0 <= i < self@.pieces.len() && !(#[trigger] self@.pieces[i]).captured ==> exists|
                    k: int,
                |
                    0 <= k < r@.len() && r@[k] as int == i,
            forall|k1: int, k2: int|
                0 <= k1 < k2 < r@.len() ==> #[trigger] r@[k1] < #[trigger] r@[k2],
    {
        let mut out: Vec<usize> = Vec::new();
        let mut i: usize = 0;
        while i < self.pieces.len()
            invariant
                0 <= i as int <= self@.pieces.len(),
                forall|k: int|
                    0 <= k < out@.len() ==> #[trigger] out@[k] < i && !self@.pieces[out@[k]
                        as int].captured,
                forall|j: int|
                    0 <= j < i && !(#[trigger] self@.pieces[j]).captured ==> exists|k: int|
                        0 <= k < out@.len() && out@[k] as int == j,
                forall|k1: int, k2: int|
                    0 <= k1 < k2 < out@.len() ==> #[trigger] out@[k1] < #[trigger] out@[k2],
            decreases self@.pieces.len() - i,
        {
            let ghost prev = out@;
            if !self.pieces[i].captured {
                out.push(i);
                proof {
                    assert forall|j: int|
                        0 <= j <= i as int && !(#[trigger] self@.pieces[j]).captured implies exists|
                        k: int,
                    | 0 <= k < out@.len() && out@[k] as int == j by {
                        if j < i as int {
                            let k = choose|k: int| 0 <= k < prev.len() && prev[k] as int == j;
                            assert(out@[k] as int == j);
                        } else {
                            assert(out@[prev.len() as int] as int == j);
                        }
                    }
                }
            }
            i += 1;
        }
        out
    }

    /// Touch every file in `[file - 1, file + zoom)`, walking downward —
    /// the quirk that the walk runs one step past zero is kept — so that
    /// the start-rank pawns of both colors materialize for a viewport.
    #[verifier::loop_isolation(false)]
    pub fn add_pawns(&mut self, file: &BigInt, zoom: &BigInt) -> (r: Option<usize>)
        ensures
            final(self)@ == touch_pawns(old(self)@, big_value(*file), big_value(*zoom)),
            r == Some(0usize),
            board_wf(old(self)@) ==> board_wf(final(self)@),
    {
        let ghost fv = big_value(*file);
        let mut z = big_clone(zoom);
        let zero = big_from_i64(0);
        let one = big_from_i64(1);
        let six = big_from_i64(6);
        while !big_lt(&z, &zero)
            invariant
                touch_pawns(old(self)@, fv, big_value(*zoom)) == touch_pawns(
                    self@,
                    fv,
                    big_value(z),
                ),
                board_wf(old(self)@) ==> board_wf(self@),
            decreases big_value(z) + 1,
        {
            z = big_add_i64(&z, -1);
            let step = big_add(file, &z);
            let _ = self.get_piece_at(&one, &step);
            let _ = self.get_piece_at(&six, &step);
        }
        Some(0)
    }
}

/// The state after touching, for `z, z-1, ..., 0`, the squares at
/// `(1, file + z - 1)` and `(6, file + z - 1)` in that order.
pub open spec fn touch_pawns(b: BoardView, file: int, z: int) -> BoardView
    decreases (if z >= 0 {
        z + 1
    } else {
        0
    }),
{
    if z >= 0 {
        let b1 = materialize(b, black_start_rank(), file + z - 1);
        let b2 = materialize(b1, white_start_rank(), file + z - 1);
        touch_pawns(b2, file, z - 1)
    } else {
        b
    }
}

/// Materialization keeps a board well-formed: the tracker clauses of
/// `board_wf` guarantee that the square a pawn appears on was free.
pub proof fn lemma_materialize_wf(b: BoardView, r: int, f: int)
    requires
        board_wf(b),
    ensures
        board_wf(materialize(b, r, f)),
{
    let b1 = if r == black_start_rank() && !b.black_marked.contains(f) {
        BoardView {
            pieces: b.pieces.push(default_pawn(Color::Black, r, f)),
            black_marked: b.black_marked.insert(f),
            ..b
        }
    } else {
        b
    };
    assert(board_wf(b1)) by {
        if r == black_start_rank() && !b.black_marked.contains(f) {
            let n = b.pieces.len() as int;
            assert forall|i: int, j: int|
                #![trigger b1.pieces[i], b1.pieces[j]]
                0 <= i < b1.pieces.len() && 0 <= j < b1.pieces.len() && i != j && !b1.pieces[i]
                    .captured && !b1.pieces[j].captured implies !(b1.pieces[i].rank
                == b1.pieces[j].rank && b1.pieces[i].file == b1.pieces[j].file) by {
                if i < n && j < n {
                    assert(b1.pieces[i] == b.pieces[i]);
                    assert(b1.pieces[j] == b.pieces[j]);
                } else {
                    let k = if i == n {
                        j
                    } else {
                        i
                    };
                    assert(b1.pieces[k] == b.pieces[k]);
                    if !b.pieces[k].captured && b.pieces[k].rank == black_start_rank() {
                        assert(b.black_marked.contains(b.pieces[k].file));
                    }
                }
            }
        }
    }
    let b2 = materialize(b, r, f);
    assert(board_wf(b2)) by {
        if r == white_start_rank() && !b1.white_marked.contains(f) {
            let n = b1.pieces.len() as int;
            assert forall|i: int, j: int|
                #![trigger b2.pieces[i], b2.pieces[j]]
                0 <= i < b2.pieces.len() && 0 <= j < b2.pieces.len() && i != j && !b2.pieces[i]
                    .captured && !b2.pieces[j].captured implies !(b2.pieces[i].rank
                == b2.pieces[j].rank && b2.pieces[i].file == b2.pieces[j].file) by {
                if i < n && j < n {
                    assert(b2.pieces[i] == b1.pieces[i]);
                    assert(b2.pieces[j] == b1.pieces[j]);
                } else {
                    let k = if i == n {
                        j
                    } else {
                        i
                    };
                    assert(b2.pieces[k] == b1.pieces[k]);
                    if !b1.pieces[k].captured && b1.pieces[k].rank == white_start_rank() {
                        assert(b1.white_marked.contains(b1.pieces[k].file));
                    }
                }
            }
        }
    }
}

/// Replacing a piece by one with the same square and capture state (for
/// example with a new type label) keeps the board well-formed.
pub proof fn lemma_update_keeps_wf(b: BoardView, i: int, p: PieceView)
    requires
        board_wf(b),
        0 <= i < b.pieces.len(),
        p.rank == b.pieces[i].rank,
        p.file == b.pieces[i].file,
        p.captured == b.pieces[i].captured,
    ensures
        board_wf(BoardView { pieces: b.pieces.update(i, p), ..b }),
{
    let b2 = BoardView { pieces: b.pieces.update(i, p), ..b };
    assert forall|x: int| 0 <= x < b2.pieces.len() implies #[trigger] b2.pieces[x].rank
        == b.pieces[x].rank && b2.pieces[x].file == b.pieces[x].file && b2.pieces[x].captured
        == b.pieces[x].captured by {
        if x != i {
            assert(b2.pieces[x] == b.pieces[x]);
        }
    }
}

pub open spec fn abs_sp(x: int) -> int {
    if x < 0 {
        -x
    } else {
        x
    }
}

/// Tombstone the piece at index `i`.
pub open spec fn capture_piece(b: BoardView, i: int) -> BoardView {
    BoardView {
        pieces: b.pieces.update(i, PieceView { captured: true, ..b.pieces[i] }),
        ..b
    }
}

/// Relocate the piece at index `i` to `(r, f)`.
pub open spec fn relocate_piece(b: BoardView, i: int, r: int, f: int) -> BoardView {
    BoardView {
        pieces: b.pieces.update(i, PieceView { rank: r, file: f, ..b.pieces[i] }),
        ..b
    }
}

/// Append a history entry for piece `i`.
pub open spec fn push_move_entry(b: BoardView, i: int) -> BoardView {
    BoardView { moves: b.moves.push(i), ..b }
}

/// The rook half of a castle: look the rook up (materializing on the
/// way) and relocate it; `false` marks the aborted move when no piece
/// stands on the rook's square.
pub open spec fn castle_rook_step(
    b: BoardView,
    fr: int,
    rook_from_file: int,
    rook_to_file: int,
) -> (BoardView, bool) {
    let b1 = materialize(b, fr, rook_from_file);
    match occupant(b1.pieces, fr, rook_from_file) {
        None => (b1, false),
        Some(rk) => (relocate_piece(b1, rk, fr, rook_to_file), true),
    }
}

/// The effects between resolving the mover and relocating it, mirroring
/// the operation: capture the destination's occupant; else, for a pawn,
/// the en-passant capture beside it; else, for a king moving two or more
/// files to file 2 or 6, the castle rook relocation.
pub open spec fn move_effects(
    b2: BoardView,
    from: int,
    fr: int,
    ff: int,
    tr: int,
    tf: int,
) -> (BoardView, bool) {
    match occupant(b2.pieces, tr, tf) {
        Some(to) => (capture_piece(b2, to), true),
        None => {
            if b2.pieces[from].kind == PieceKind::Pawn {
                let b3 = materialize(b2, fr, tf);
                match occupant(b3.pieces, fr, tf) {
                    Some(to2) => if to2 != from {
                        (capture_piece(b3, to2), true)
                    } else {
                        (b3, true)
                    },
                    None => (b3, true),
                }
            } else if b2.pieces[from].kind == PieceKind::King && abs_sp(ff - tf) >= 2 {
                if tf == 2 {
                    castle_rook_step(b2, fr, 0, 3)
                } else if tf == 6 {
                    castle_rook_step(b2, fr, 7, 5)
                } else {
                    (b2, true)
                }
            } else {
                (b2, true)
            }
        },
    }
}

/// What applying a move from `(fr, ff)` to `(tr, tf)` does, step by
/// step: resolve the mover (absence aborts), run the side effects, then
/// relocate the mover and append the history entry. The turn counter is
/// not touched here; committing a turn is the concurrency entry point's
/// job.
pub open spec fn move_outcome(b0: BoardView, fr: int, ff: int, tr: int, tf: int) -> (BoardView,
    Option<int>) {
    let b1 = materialize(b0, fr, ff);
    match occupant(b1.pieces, fr, ff) {
        None => (b1, None),
        Some(from) => {
            let b2 = materialize(b1, tr, tf);
            let step = move_effects(b2, from, fr, ff, tr, tf);
            if !step.1 {
                (step.0, None)
            } else {
                (push_move_entry(relocate_piece(step.0, from, tr, tf), from), Some(0))
            }
        },
    }
}

/// The one unchecked hazard in applying a move: a castle relocates the
/// rook without looking at the rook's destination square. This condition
/// holds when that relocation, if reached, lands on a free square whose
/// file is already marked where the square lies on a start rank.
pub open spec fn castle_relocation_ok(
    b: BoardView,
    fr: int,
    rook_from_file: int,
    rook_to_file: int,
) -> bool {
    let b1 = materialize(b, fr, rook_from_file);
    match occupant(b1.pieces, fr, rook_from_file) {
        None => true,
        Some(rk) => {
            &&& occupant(b1.pieces, fr, rook_to_file) is None
            &&& (fr == black_start_rank() ==> b1.black_marked.contains(rook_to_file))
            &&& (fr == white_start_rank() ==> b1.white_marked.contains(rook_to_file))
        },
    }
}

/// Under this condition — trivial except for a reached castle — applying
/// a move keeps the board well-formed. A caller that has verified
/// legality beforehand, as the operation expects, satisfies it.
pub open spec fn move_wf_cond(b0: BoardView, fr: int, ff: int, tr: int, tf: int) -> bool {
    let b1 = materialize(b0, fr, ff);
    match occupant(b1.pieces, fr, ff) {
        None => true,
        Some(from) => {
            let b2 = materialize(b1, tr, tf);
            if occupant(b2.pieces, tr, tf) is None && b2.pieces[from].kind == PieceKind::King
                && abs_sp(ff - tf) >= 2 {
                if tf == 2 {
                    castle_relocation_ok(b2, fr, 0, 3)
                } else if tf == 6 {
                    castle_relocation_ok(b2, fr, 7, 5)
                } else {
                    true
                }
            } else {
                true
            }
        },
    }
}

/// The unit step from `0` toward `x`.
pub open spec fn sgn(x: int) -> int {
    if x < 0 {
        -1
    } else if x == 0 {
        0
    } else {
        1
    }
}

/// The collision walk from `(r, f)` toward `(tr, tf)`: until the target
/// square is reached, look the current square up (materializing on the
/// way), stop with `false` if it is occupied, else step each axis one
/// square toward its target. On the eight principal directions this
/// visits exactly the squares strictly between the endpoints.
pub open spec fn walk(b: BoardView, r: int, f: int, tr: int, tf: int) -> (BoardView, bool)
    decreases abs_sp(tr - r) + abs_sp(tf - f),
{
    if r == tr && f == tf {
        (b, true)
    } else {
        let b2 = materialize(b, r, f);
        if occupant(b2.pieces, r, f) is Some {
            (b2, false)
        } else {
            walk(b2, r + sgn(tr - r), f + sgn(tf - f), tr, tf)
        }
    }
}

/// The unit step from `cur` toward `target`, as the sign of the delta.
pub fn step_toward(cur: &BigInt, target: &BigInt) -> (r: i64)
    ensures
        r as int == sgn(big_value(*target) - big_value(*cur)),
{
    if big_lt(cur, target) {
        1
    } else if big_lt(target, cur) {
        -1
    } else {
        0
    }
}

/// What the legality query answers and which pawns it materializes on
/// the way: same square — no; empty origin — no; else the rules
/// capability's shape answer, overridden to no when the destination
/// holds a piece of the mover's color.
pub open spec fn legal_outcome<R: PieceRules>(
    rules: R,
    b0: BoardView,
    fr: int,
    ff: int,
    tr: int,
    tf: int,
) -> (BoardView, bool) {
    if fr == tr && ff == tf {
        (b0, false)
    } else {
        let b1 = materialize(b0, fr, ff);
        match occupant(b1.pieces, fr, ff) {
            None => (b1, false),
            Some(p) => {
                let shape_ok = rules.spec_can_move(b1, p, tr, tf);
                let b2 = materialize(b1, tr, tf);
                match occupant(b2.pieces, tr, tf) {
                    Some(o) => if b2.pieces[p].color == b2.pieces[o].color {
                        (b2, false)
                    } else {
                        (b2, shape_ok)
                    },
                    None => (b2, shape_ok),
                }
            },
        }
    }
}

/// One row of the windowed enumeration: the legality answers for
/// destinations `(x, y), (x, y+1), ..., (x, yend-1)`, threading the
/// board state (each query may materialize) and collecting the legal
/// squares in order.
pub open spec fn window_row<R: PieceRules>(
    rules: R,
    b: BoardView,
    fr: int,
    ff: int,
    x: int,
    y: int,
    yend: int,
) -> (BoardView, Seq<(int, int)>)
    decreases (if y < yend {
        yend - y
    } else {
        0
    }),
{
    if y >= yend {
        (b, Seq::empty())
    } else {
        let step = legal_outcome(rules, b, fr, ff, x, y);
        let rest = window_row(rules, step.0, fr, ff, x, y + 1, yend);
        (rest.0, if step.1 {
            seq![(x, y)] + rest.1
        } else {
            rest.1
        })
    }
}

/// The windowed enumeration over `[x, xend) x [y0, yend)`: first axis
/// outer, second inner, both ascending; exactly the destinations the
/// legality query (evaluated in sequence) answers yes for.
pub open spec fn window_moves<R: PieceRules>(
    rules: R,
    b: BoardView,
    fr: int,
    ff: int,
    x: int,
    xend: int,
    y0: int,
    yend: int,
) -> (BoardView, Seq<(int, int)>)
    decreases (if x < xend {
        xend - x
    } else {
        0
    }),
{
    if x >= xend {
        (b, Seq::empty())
    } else {
        let row = window_row(rules, b, fr, ff, x, y0, yend);
        let rest = window_moves(rules, row.0, fr, ff, x + 1, xend, y0, yend);
        (rest.0, row.1 + rest.1)
    }
}

/// The integer coordinates a list of squares holds.
pub open spec fn coords_of(s: Seq<(BigInt, BigInt)>) -> Seq<(int, int)> {
    s.map_values(|p: (BigInt, BigInt)| (big_value(p.0), big_value(p.1)))
}

/// Advance the turn counter by one, leaving everything else in place.
pub open spec fn bump_turn(b: BoardView) -> BoardView {
    BoardView { turn: b.turn + 1, ..b }
}

/// Materialization only appends pawns and marks files: every existing
/// piece, the turn and the history are untouched, and marks only grow.
pub proof fn lemma_materialize_frame(b: BoardView, r: int, f: int)
    ensures
        b.pieces.len() <= materialize(b, r, f).pieces.len(),
        forall|i: int|
            0 <= i < b.pieces.len() ==> materialize(b, r, f).pieces[i] == #[trigger] b.pieces[i],
        materialize(b, r, f).turn == b.turn,
        materialize(b, r, f).moves == b.moves,
        forall|v: int|
            #[trigger] b.black_marked.contains(v) ==> materialize(b, r, f).black_marked.contains(
                v,
            ),
        forall|v: int|
            #[trigger] b.white_marked.contains(v) ==> materialize(b, r, f).white_marked.contains(
                v,
            ),
        r == black_start_rank() ==> materialize(b, r, f).black_marked.contains(f),
        r == white_start_rank() ==> materialize(b, r, f).white_marked.contains(f),
        forall|i: int|
            b.pieces.len() <= i < materialize(b, r, f).pieces.len()
                ==> (#[trigger] materialize(b, r, f).pieces[i]).rank == r && materialize(
                b,
                r,
                f,
            ).pieces[i].file == f && !materialize(b, r, f).pieces[i].captured,
{
}

/// Capturing keeps a board well-formed: the set of occupied squares only
/// shrinks.
pub proof fn lemma_capture_wf(b: BoardView, i: int)
    requires
        board_wf(b),
        0 <= i < b.pieces.len(),
    ensures
        board_wf(capture_piece(b, i)),
{
    let b2 = capture_piece(b, i);
    assert forall|x: int| 0 <= x < b2.pieces.len() implies (#[trigger] b2.pieces[x]).rank
        == b.pieces[x].rank && b2.pieces[x].file == b.pieces[x].file && (!b2.pieces[x].captured
        ==> !b.pieces[x].captured) by {
        if x != i {
            assert(b2.pieces[x] == b.pieces[x]);
        }
    }
}

/// Relocating keeps a board well-formed, provided the destination square
/// is free of other active pieces and, on a start rank, marked.
pub proof fn lemma_relocate_wf(b: BoardView, i: int, r: int, f: int)
    requires
        board_wf(b),
        0 <= i < b.pieces.len(),
        forall|k: int|
            0 <= k < b.pieces.len() && k != i ==> !piece_active_at(#[trigger] b.pieces[k], r, f),
        r == black_start_rank() ==> b.black_marked.contains(f),
        r == white_start_rank() ==> b.white_marked.contains(f),
    ensures
        board_wf(relocate_piece(b, i, r, f)),
{
    let b2 = relocate_piece(b, i, r, f);
    assert forall|x: int| 0 <= x < b2.pieces.len() && x != i implies #[trigger] b2.pieces[x]
        == b.pieces[x] by {}
    assert forall|x: int, y: int|
        #![trigger b2.pieces[x], b2.pieces[y]]
        0 <= x < b2.pieces.len() && 0 <= y < b2.pieces.len() && x != y && !b2.pieces[x].captured
            && !b2.pieces[y].captured implies !(b2.pieces[x].rank == b2.pieces[y].rank
        && b2.pieces[x].file == b2.pieces[y].file) by {
        if x != i && y != i {
            assert(b2.pieces[x] == b.pieces[x]);
            assert(b2.pieces[y] == b.pieces[y]);
        } else {
            let k = if x == i {
                y
            } else {
                x
            };
            assert(b2.pieces[k] == b.pieces[k]);
            assert(b2.pieces[i].rank == r && b2.pieces[i].file == f);
            assert(!piece_active_at(b.pieces[k], r, f));
        }
    }
}

/// Applying a move keeps the board well-formed whenever `move_wf_cond`
/// holds of the request; in particular always, except for a castle whose
/// rook would land on an occupied or unmarked start-rank square.
pub proof fn lemma_move_outcome_wf(b0: BoardView, fr: int, ff: int, tr: int, tf: int)
    requires
        board_wf(b0),
        move_wf_cond(b0, fr, ff, tr, tf),
    ensures
        board_wf(move_outcome(b0, fr, ff, tr, tf).0),
{
    let b1 = materialize(b0, fr, ff);
    lemma_materialize_wf(b0, fr, ff);
    if occupant(b1.pieces, fr, ff) is Some {
        let from = occupant(b1.pieces, fr, ff).unwrap();
        lemma_occ_from_props(b1.pieces, fr, ff, 0);
        let b2 = materialize(b1, tr, tf);
        lemma_materialize_wf(b1, tr, tf);
        lemma_materialize_frame(b1, tr, tf);
        assert(b2.pieces[from] == b1.pieces[from]);
        match occupant(b2.pieces, tr, tf) {
            Some(to) => {
                lemma_occ_from_props(b2.pieces, tr, tf, 0);
                lemma_capture_wf(b2, to);
                let b3 = capture_piece(b2, to);
                assert forall|k: int|
                    0 <= k < b3.pieces.len() && k != from implies !piece_active_at(
                    #[trigger] b3.pieces[k],
                    tr,
                    tf,
                ) by {
                    if k != to {
                        assert(b3.pieces[k] == b2.pieces[k]);
                        if piece_active_at(b2.pieces[k], tr, tf) {
                            assert(piece_active_at(b2.pieces[to], tr, tf));
                            assert(false);
                        }
                    }
                }
                lemma_relocate_wf(b3, from, tr, tf);
            },
            None => {
                lemma_occ_from_props(b2.pieces, tr, tf, 0);
                if b2.pieces[from].kind == PieceKind::Pawn {
                    let b3 = materialize(b2, fr, tf);
                    lemma_materialize_wf(b2, fr, tf);
                    lemma_materialize_frame(b2, fr, tf);
                    assert forall|k: int|
                        0 <= k < b3.pieces.len() && k != from implies !piece_active_at(
                        #[trigger] b3.pieces[k],
                        tr,
                        tf,
                    ) by {
                        if k < b2.pieces.len() {
                            assert(b3.pieces[k] == b2.pieces[k]);
                        } else {
                            assert(b3.pieces[k].rank == fr && b3.pieces[k].file == tf);
                            if fr == tr {
                                assert(b3.pieces.len() == b2.pieces.len());
                            }
                        }
                    }
                    match occupant(b3.pieces, fr, tf) {
                        Some(to2) => {
                            lemma_occ_from_props(b3.pieces, fr, tf, 0);
                            if to2 != from {
                                lemma_capture_wf(b3, to2);
                                let b4 = capture_piece(b3, to2);
                                assert forall|k: int|
                                    0 <= k < b4.pieces.len() && k != from implies !piece_active_at(
                                    #[trigger] b4.pieces[k],
                                    tr,
                                    tf,
                                ) by {
                                    if k != to2 {
                                        assert(b4.pieces[k] == b3.pieces[k]);
                                    }
                                }
                                lemma_relocate_wf(b4, from, tr, tf);
                            } else {
                                lemma_relocate_wf(b3, from, tr, tf);
                            }
                        },
                        None => {
                            lemma_relocate_wf(b3, from, tr, tf);
                        },
                    }
                } else if b2.pieces[from].kind == PieceKind::King && abs_sp(ff - tf) >= 2 && (tf
                    == 2 || tf == 6) {
                    let rff: int = if tf == 2 {
                        0
                    } else {
                        7
                    };
                    let rtf: int = if tf == 2 {
                        3
                    } else {
                        5
                    };
                    let b1c = materialize(b2, fr, rff);
                    lemma_materialize_wf(b2, fr, rff);
                    lemma_materialize_frame(b2, fr, rff);
                    match occupant(b1c.pieces, fr, rff) {
                        None => {},
                        Some(rk) => {
                            lemma_occ_from_props(b1c.pieces, fr, rff, 0);
                            lemma_occ_from_props(b1c.pieces, fr, rtf, 0);
                            lemma_relocate_wf(b1c, rk, fr, rtf);
                            let b3 = relocate_piece(b1c, rk, fr, rtf);
                            assert forall|k: int|
                                0 <= k < b3.pieces.len() && k != from implies !piece_active_at(
                                #[trigger] b3.pieces[k],
                                tr,
                                tf,
                            ) by {
                                if k != rk {
                                    assert(b3.pieces[k] == b1c.pieces[k]);
                                    if k < b2.pieces.len() {
                                        assert(b1c.pieces[k] == b2.pieces[k]);
                                    } else {
                                        assert(b1c.pieces[k].file == rff);
                                    }
                                } else {
                                    assert(b3.pieces[rk].file == rtf);
                                }
                            }
                            lemma_relocate_wf(b3, from, tr, tf);
                        },
                    }
                } else {
                    lemma_relocate_wf(b2, from, tr, tf);
                }
            },
        }
    }
}

/// What a promotion does: rewrite the occupant's type label in place.
/// The turn counter, the history, the trackers and all other pieces are
/// untouched; absence of an occupant leaves only the materialization.
pub open spec fn promote_outcome(b: BoardView, r: int, f: int, kind: PieceKind) -> (BoardView,
    Option<int>) {
    let b1 = materialize(b, r, f);
    match occupant(b1.pieces, r, f) {
        None => (b1, None),
        Some(i) => (
            BoardView { pieces: b1.pieces.update(i, PieceView { kind, ..b1.pieces[i] }), ..b1 },
            Some(i),
        ),
    }
}

/// Structure of the first-occupant search: if it finds `Some(i)`, then
/// `i` is in range, active at the square, and least such; if `None`, no
/// piece at or after `j` is active at the square.
pub proof fn lemma_occ_from_props(pieces: Seq<PieceView>, r: int, f: int, j: int)
    requires
        0 <= j,
    ensures
        match occ_from(pieces, r, f, j) {
            Some(i) => {
                &&& j <= i < pieces.len()
                &&& piece_active_at(pieces[i], r, f)
                &&& forall|k: int| j <= k < i ==> !piece_active_at(#[trigger] pieces[k], r, f)
            },
            None => forall|k: int|
                j <= k < pieces.len() ==> !piece_active_at(#[trigger] pieces[k], r, f),
        },
    decreases pieces.len() - j,
{
    if j < pieces.len() {
        if !piece_active_at(pieces[j], r, f) {
            lemma_occ_from_props(pieces, r, f, j + 1);
        }
    }
}

/// If one piece is active at the square and every other piece is not,
/// the occupant search answers exactly that piece.
pub proof fn lemma_occ_only(pieces: Seq<PieceView>, r: int, f: int, i: int)
    requires
        0 <= i < pieces.len(),
        piece_active_at(pieces[i], r, f),
        forall|k: int|
            0 <= k < pieces.len() && k != i ==> !piece_active_at(#[trigger] pieces[k], r, f),
    ensures
        occupant(pieces, r, f) == Some(i),
{
    lemma_occ_from_props(pieces, r, f, 0);
    match occupant(pieces, r, f) {
        Some(k) => {
            if k != i {
                assert(piece_active_at(pieces[k], r, f));
                assert(false);
            }
        },
        None => {
            assert(!piece_active_at(pieces[i], r, f));
        },
    }
}

/// If no piece is active at the square, the occupant search answers
/// absence.
pub proof fn lemma_occ_empty(pieces: Seq<PieceView>, r: int, f: int)
    requires
        forall|k: int| 0 <= k < pieces.len() ==> !piece_active_at(#[trigger] pieces[k], r, f),
    ensures
        occupant(pieces, r, f) is None,
{
    lemma_occ_from_props(pieces, r, f, 0);
    if occupant(pieces, r, f) is Some {
        let k = occupant(pieces, r, f).unwrap();
        assert(piece_active_at(pieces[k], r, f));
        assert(false);
    }
}

/// A well-formed board's occupant search returns exactly the unique
/// active piece at the square, whatever its index.
pub proof fn lemma_occ_unique(pieces: Seq<PieceView>, r: int, f: int, i: int)
    requires
        pieces_unique(pieces),
        0 <= i < pieces.len(),
        piece_active_at(pieces[i], r, f),
    ensures
        occupant(pieces, r, f) == Some(i),
{
    lemma_occ_from_props(pieces, r, f, 0);
    match occupant(pieces, r, f) {
        Some(k) => {
            if k != i {
                assert(piece_active_at(pieces[k], r, f));
                assert(false);
            }
        },
        None => {
            assert(!piece_active_at(pieces[i], r, f));
        },
    }
}

} // verus!
