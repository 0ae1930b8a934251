//! Board-wide laws, proved once and for all over the specification
//! model: idempotence of lazy materialization, the scope of the two
//! pawn trackers, what a committed move leaves at its two squares,
//! capture (plain, en passant, castling) and the legality filters.

use vstd::prelude::*;

use crate::board::{
    abs_sp, black_start_rank, board_wf, capture_piece, default_pawn, legal_outcome,
    lemma_materialize_frame, lemma_materialize_wf, lemma_occ_empty, lemma_occ_from_props,
    lemma_occ_only, lemma_occ_unique, lookup_result, materialize, move_effects, move_outcome,
    occupant, piece_active_at, push_move_entry, relocate_piece, white_start_rank, window_moves,
    window_row, BoardView,
};
use crate::piece::{Color, PieceKind};
use crate::rules::PieceRules;

verus! {

/// Touching a square twice is the same as touching it once: the second
/// lookup changes nothing and answers the same identity, so no duplicate
/// pawn is ever created.
pub proof fn lemma_lookup_idempotent(b: BoardView, r: int, f: int)
    ensures
        materialize(materialize(b, r, f), r, f) == materialize(b, r, f),
        lookup_result(materialize(b, r, f), r, f) == lookup_result(b, r, f),
{
    lemma_materialize_frame(b, r, f);
}

/// A never-touched file at the black start rank materializes exactly one
/// fresh black pawn, appended at the end of the arena, and the lookup
/// answers its identity.
pub proof fn lemma_fresh_black_pawn(b: BoardView, f: int)
    requires
        board_wf(b),
        !b.black_marked.contains(f),
    ensures
        lookup_result(b, black_start_rank(), f) == Some(b.pieces.len() as int),
        materialize(b, black_start_rank(), f).pieces[b.pieces.len() as int] == default_pawn(
            Color::Black,
            black_start_rank(),
            f,
        ),
{
    let n = b.pieces.len() as int;
    let m = materialize(b, black_start_rank(), f);
    lemma_materialize_wf(b, black_start_rank(), f);
    lemma_occ_unique(m.pieces, black_start_rank(), f, n);
}

/// The white counterpart: a never-touched file at the white start rank
/// materializes exactly one fresh white pawn.
pub proof fn lemma_fresh_white_pawn(b: BoardView, f: int)
    requires
        board_wf(b),
        !b.white_marked.contains(f),
    ensures
        lookup_result(b, white_start_rank(), f) == Some(b.pieces.len() as int),
        materialize(b, white_start_rank(), f).pieces[b.pieces.len() as int] == default_pawn(
            Color::White,
            white_start_rank(),
            f,
        ),
{
    let n = b.pieces.len() as int;
    let m = materialize(b, white_start_rank(), f);
    lemma_materialize_wf(b, white_start_rank(), f);
    lemma_occ_unique(m.pieces, white_start_rank(), f, n);
}

/// Materialization touches only its own color's tracker — the black
/// start rank never affects the white tracker and vice versa — and no
/// rank besides the two start ranks ever materializes a pawn.
pub proof fn lemma_materialize_scope(b: BoardView, r: int, f: int)
    ensures
        materialize(b, r, f).black_marked =~= (if r == black_start_rank() {
            b.black_marked.insert(f)
        } else {
            b.black_marked
        }),
        materialize(b, r, f).white_marked =~= (if r == white_start_rank() {
            b.white_marked.insert(f)
        } else {
            b.white_marked
        }),
        materialize(b, r, f).pieces.len() == b.pieces.len() + (if r == black_start_rank()
            && !b.black_marked.contains(f) {
            1int
        } else if r == white_start_rank() && !b.white_marked.contains(f) {
            1int
        } else {
            0int
        }),
        r != black_start_rank() && r != white_start_rank() ==> materialize(b, r, f) == b,
{
}

/// A lookup never answers with a captured piece: tombstoned pieces are
/// invisible to occupancy.
pub proof fn lemma_lookup_excludes_captured(b: BoardView, r: int, f: int)
    ensures
        lookup_result(b, r, f) is Some ==> !materialize(b, r, f).pieces[lookup_result(
            b,
            r,
            f,
        ).unwrap()].captured,
{
    lemma_occ_from_props(materialize(b, r, f).pieces, r, f, 0);
}

/// Applying a move to an unoccupied destination leaves the mover's
/// identity at the destination and absence at the origin: after
/// `apply_move(a, b)` with no prior occupant at `b`, a lookup at `b`
/// answers the original identity and a lookup at `a` answers absence.
/// The one family of inputs left out is an aborted castle (king shape
/// with no piece on the rook's square), where nothing moves at all.
pub proof fn lemma_move_to_empty(b0: BoardView, fr: int, ff: int, tr: int, tf: int)
    requires
        board_wf(b0),
        lookup_result(b0, fr, ff) is Some,
        occupant(materialize(materialize(b0, fr, ff), tr, tf).pieces, tr, tf) is None,
        move_outcome(b0, fr, ff, tr, tf).1 is Some,
    ensures
        lookup_result(move_outcome(b0, fr, ff, tr, tf).0, tr, tf) == lookup_result(b0, fr, ff),
        lookup_result(move_outcome(b0, fr, ff, tr, tf).0, fr, ff) is None,
{
    let b1 = materialize(b0, fr, ff);
    lemma_materialize_wf(b0, fr, ff);
    lemma_materialize_frame(b0, fr, ff);
    lemma_occ_from_props(b1.pieces, fr, ff, 0);
    let from = occupant(b1.pieces, fr, ff).unwrap();
    let b2 = materialize(b1, tr, tf);
    lemma_materialize_wf(b1, tr, tf);
    lemma_materialize_frame(b1, tr, tf);
    lemma_occ_from_props(b2.pieces, tr, tf, 0);
    if fr == tr && ff == tf {
        assert(b2 == b1);
        assert(false);
    }
    assert(piece_active_at(b2.pieces[from], fr, ff));
    assert forall|k: int|
        0 <= k < b2.pieces.len() && k != from implies !piece_active_at(
        #[trigger] b2.pieces[k],
        fr,
        ff,
    ) by {
        if piece_active_at(b2.pieces[k], fr, ff) {
            assert(!(b2.pieces[k].rank == b2.pieces[from].rank && b2.pieces[k].file
                == b2.pieces[from].file));
        }
    }
    let step = move_effects(b2, from, fr, ff, tr, tf);
    let b3 = step.0;
    if b2.pieces[from].kind == PieceKind::Pawn {
        lemma_materialize_frame(b2, fr, tf);
        let b3p = materialize(b2, fr, tf);
        lemma_occ_from_props(b3p.pieces, fr, tf, 0);
        if fr == tr {
            assert(b3p == b2);
        }
        if tf == ff {
            assert(b3p == b2);
        }
        assert forall|k: int|
            0 <= k < b3.pieces.len() && k != from implies !piece_active_at(
            #[trigger] b3.pieces[k],
            tr,
            tf,
        ) && !piece_active_at(b3.pieces[k], fr, ff) by {
            let cap = occupant(b3p.pieces, fr, tf);
            if cap is Some && cap.unwrap() != from && k == cap.unwrap() {
            } else {
                assert(b3.pieces[k] == b3p.pieces[k]);
                if k < b2.pieces.len() {
                    assert(b3p.pieces[k] == b2.pieces[k]);
                } else {
                    assert(b3p.pieces[k].rank == fr && b3p.pieces[k].file == tf);
                }
            }
        }
        assert(!b3.pieces[from].captured && from < b3.pieces.len());
    } else if b2.pieces[from].kind == PieceKind::King && abs_sp(ff - tf) >= 2 && (tf == 2 || tf
        == 6) {
        let rff: int = if tf == 2 {
            0
        } else {
            7
        };
        let rtf: int = if tf == 2 {
            3
        } else {
            5
        };
        lemma_materialize_frame(b2, fr, rff);
        let bc = materialize(b2, fr, rff);
        lemma_occ_from_props(bc.pieces, fr, rff, 0);
        if rff == ff {
            assert(bc == b2);
        }
        let rk = occupant(bc.pieces, fr, rff).unwrap();
        assert(b3 == relocate_piece(bc, rk, fr, rtf));
        assert forall|k: int|
            0 <= k < b3.pieces.len() && k != from implies !piece_active_at(
            #[trigger] b3.pieces[k],
            tr,
            tf,
        ) && !piece_active_at(b3.pieces[k], fr, ff) by {
            if k == rk {
                assert(b3.pieces[k].rank == fr && b3.pieces[k].file == rtf);
                assert(rtf != tf);
                assert(abs_sp(ff - tf) >= 2);
                assert(rtf != ff);
            } else {
                assert(b3.pieces[k] == bc.pieces[k]);
                if k < b2.pieces.len() {
                    assert(bc.pieces[k] == b2.pieces[k]);
                } else {
                    assert(bc.pieces[k].rank == fr && bc.pieces[k].file == rff);
                    assert(rff != tf);
                    if rff == ff {
                        assert(false);
                    }
                }
            }
        }
        assert(!b3.pieces[from].captured && from < b3.pieces.len());
    } else {
        assert(b3 == b2);
        assert forall|k: int|
            0 <= k < b3.pieces.len() && k != from implies !piece_active_at(
            #[trigger] b3.pieces[k],
            tr,
            tf,
        ) && !piece_active_at(b3.pieces[k], fr, ff) by {}
        assert(!b3.pieces[from].captured && from < b3.pieces.len());
    }
    assert(tr == black_start_rank() ==> b3.black_marked.contains(tf));
    assert(tr == white_start_rank() ==> b3.white_marked.contains(tf));
    assert(fr == black_start_rank() ==> b3.black_marked.contains(ff));
    assert(fr == white_start_rank() ==> b3.white_marked.contains(ff));
    let b4 = relocate_piece(b3, from, tr, tf);
    let bf = push_move_entry(b4, from);
    assert(move_outcome(b0, fr, ff, tr, tf).0 == bf);
    assert(piece_active_at(bf.pieces[from], tr, tf));
    assert forall|k: int|
        0 <= k < bf.pieces.len() && k != from implies !piece_active_at(
        #[trigger] bf.pieces[k],
        tr,
        tf,
    ) by {
        assert(bf.pieces[k] == b3.pieces[k]);
    }
    assert(materialize(bf, tr, tf) == bf);
    lemma_occ_only(bf.pieces, tr, tf, from);
    assert forall|k: int| 0 <= k < bf.pieces.len() implies !piece_active_at(
        #[trigger] bf.pieces[k],
        fr,
        ff,
    ) by {
        if k != from {
            assert(bf.pieces[k] == b3.pieces[k]);
        }
    }
    assert(materialize(bf, fr, ff) == bf);
    lemma_occ_empty(bf.pieces, fr, ff);
}

/// Moving onto an occupied square tombstones the occupant: it stays in
/// the arena, marked captured, and the mover's identity is what a lookup
/// at the destination afterwards answers.
pub proof fn lemma_capture_on_occupied(b0: BoardView, fr: int, ff: int, tr: int, tf: int)
    requires
        board_wf(b0),
        !(fr == tr && ff == tf),
        lookup_result(b0, fr, ff) is Some,
        lookup_result(materialize(b0, fr, ff), tr, tf) is Some,
    ensures
        move_outcome(b0, fr, ff, tr, tf).1 is Some,
        ({
            let q = lookup_result(materialize(b0, fr, ff), tr, tf).unwrap();
            let bf = move_outcome(b0, fr, ff, tr, tf).0;
            bf.pieces[q].captured && lookup_result(bf, tr, tf) == lookup_result(b0, fr, ff)
        }),
{
    let b1 = materialize(b0, fr, ff);
    lemma_materialize_wf(b0, fr, ff);
    lemma_materialize_frame(b0, fr, ff);
    lemma_occ_from_props(b1.pieces, fr, ff, 0);
    let from = occupant(b1.pieces, fr, ff).unwrap();
    let b2 = materialize(b1, tr, tf);
    lemma_materialize_wf(b1, tr, tf);
    lemma_materialize_frame(b1, tr, tf);
    lemma_occ_from_props(b2.pieces, tr, tf, 0);
    let to = occupant(b2.pieces, tr, tf).unwrap();
    assert(piece_active_at(b2.pieces[from], fr, ff));
    assert(piece_active_at(b2.pieces[to], tr, tf));
    assert(from != to);
    let b3 = capture_piece(b2, to);
    let b4 = relocate_piece(b3, from, tr, tf);
    let bf = push_move_entry(b4, from);
    assert(move_outcome(b0, fr, ff, tr, tf).0 == bf);
    assert(bf.pieces[to].captured);
    assert(piece_active_at(bf.pieces[from], tr, tf));
    assert forall|k: int|
        0 <= k < bf.pieces.len() && k != from implies !piece_active_at(
        #[trigger] bf.pieces[k],
        tr,
        tf,
    ) by {
        if k != to {
            assert(bf.pieces[k] == b2.pieces[k]);
            if piece_active_at(b2.pieces[k], tr, tf) {
                assert(!(b2.pieces[k].rank == b2.pieces[to].rank && b2.pieces[k].file
                    == b2.pieces[to].file));
            }
        }
    }
    assert(tr == black_start_rank() ==> bf.black_marked.contains(tf));
    assert(tr == white_start_rank() ==> bf.white_marked.contains(tf));
    assert(materialize(bf, tr, tf) == bf);
    lemma_occ_only(bf.pieces, tr, tf, from);
}

/// En passant by positional pattern: a pawn moving to an empty square on
/// another file captures whatever distinct piece stands on the pawn's
/// own rank at the destination file.
pub proof fn lemma_en_passant(b0: BoardView, fr: int, ff: int, tr: int, tf: int)
    requires
        board_wf(b0),
        lookup_result(b0, fr, ff) is Some,
        ({
            let b1 = materialize(b0, fr, ff);
            let from = occupant(b1.pieces, fr, ff).unwrap();
            let b2 = materialize(b1, tr, tf);
            b2.pieces[from].kind == PieceKind::Pawn && occupant(b2.pieces, tr, tf) is None
                && occupant(materialize(b2, fr, tf).pieces, fr, tf) is Some
        }),
        ff != tf,
    ensures
        move_outcome(b0, fr, ff, tr, tf).1 is Some,
        ({
            let b1 = materialize(b0, fr, ff);
            let b2 = materialize(b1, tr, tf);
            let q = occupant(materialize(b2, fr, tf).pieces, fr, tf).unwrap();
            move_outcome(b0, fr, ff, tr, tf).0.pieces[q].captured
        }),
{
    let b1 = materialize(b0, fr, ff);
    lemma_materialize_wf(b0, fr, ff);
    lemma_materialize_frame(b0, fr, ff);
    lemma_occ_from_props(b1.pieces, fr, ff, 0);
    let from = occupant(b1.pieces, fr, ff).unwrap();
    let b2 = materialize(b1, tr, tf);
    lemma_materialize_wf(b1, tr, tf);
    lemma_materialize_frame(b1, tr, tf);
    lemma_occ_from_props(b2.pieces, tr, tf, 0);
    let b3p = materialize(b2, fr, tf);
    lemma_materialize_frame(b2, fr, tf);
    lemma_occ_from_props(b3p.pieces, fr, tf, 0);
    let q = occupant(b3p.pieces, fr, tf).unwrap();
    assert(piece_active_at(b3p.pieces[from], fr, ff));
    assert(piece_active_at(b3p.pieces[q], fr, tf));
    assert(q != from);
    let b3 = capture_piece(b3p, q);
    let b4 = relocate_piece(b3, from, tr, tf);
    let bf = push_move_entry(b4, from);
    assert(move_outcome(b0, fr, ff, tr, tf).0 == bf);
    assert(bf.pieces[q].captured);
}

/// Queenside castling: a king on file 4 moving two files to file 2 on
/// its rank relocates the piece standing at file 0 of that rank to file
/// 3, leaving it uncaptured.
pub proof fn lemma_castle_queenside(b0: BoardView, r: int, tr: int)
    requires
        board_wf(b0),
        tr == r,
        lookup_result(b0, r, 4) is Some,
        ({
            let b1 = materialize(b0, r, 4);
            let from = occupant(b1.pieces, r, 4).unwrap();
            let b2 = materialize(b1, tr, 2);
            b2.pieces[from].kind == PieceKind::King && occupant(b2.pieces, tr, 2) is None
                && occupant(materialize(b2, r, 0).pieces, r, 0) is Some
        }),
    ensures
        move_outcome(b0, r, 4, tr, 2).1 is Some,
        ({
            let b1 = materialize(b0, r, 4);
            let b2 = materialize(b1, tr, 2);
            let rk = occupant(materialize(b2, r, 0).pieces, r, 0).unwrap();
            let bf = move_outcome(b0, r, 4, tr, 2).0;
            bf.pieces[rk].rank == r && bf.pieces[rk].file == 3 && !bf.pieces[rk].captured
        }),
{
    let b1 = materialize(b0, r, 4);
    lemma_materialize_wf(b0, r, 4);
    lemma_materialize_frame(b0, r, 4);
    lemma_occ_from_props(b1.pieces, r, 4, 0);
    let from = occupant(b1.pieces, r, 4).unwrap();
    let b2 = materialize(b1, tr, 2);
    lemma_materialize_wf(b1, tr, 2);
    lemma_materialize_frame(b1, tr, 2);
    lemma_occ_from_props(b2.pieces, tr, 2, 0);
    let bc = materialize(b2, r, 0);
    lemma_materialize_frame(b2, r, 0);
    lemma_occ_from_props(bc.pieces, r, 0, 0);
    let rk = occupant(bc.pieces, r, 0).unwrap();
    assert(piece_active_at(bc.pieces[from], r, 4));
    assert(piece_active_at(bc.pieces[rk], r, 0));
    assert(rk != from);
    let b3 = relocate_piece(bc, rk, r, 3);
    let b4 = relocate_piece(b3, from, tr, 2);
    let bf = push_move_entry(b4, from);
    assert(move_outcome(b0, r, 4, tr, 2).0 == bf);
    assert(bf.pieces[rk].rank == r && bf.pieces[rk].file == 3 && !bf.pieces[rk].captured);
}

/// Kingside castling: a king on file 4 moving two files to file 6 on
/// its rank relocates the piece standing at file 7 of that rank to file
/// 5, leaving it uncaptured.
pub proof fn lemma_castle_kingside(b0: BoardView, r: int, tr: int)
    requires
        board_wf(b0),
        tr == r,
        lookup_result(b0, r, 4) is Some,
        ({
            let b1 = materialize(b0, r, 4);
            let from = occupant(b1.pieces, r, 4).unwrap();
            let b2 = materialize(b1, tr, 6);
            b2.pieces[from].kind == PieceKind::King && occupant(b2.pieces, tr, 6) is None
                && occupant(materialize(b2, r, 7).pieces, r, 7) is Some
        }),
    ensures
        move_outcome(b0, r, 4, tr, 6).1 is Some,
        ({
            let b1 = materialize(b0, r, 4);
            let b2 = materialize(b1, tr, 6);
            let rk = occupant(materialize(b2, r, 7).pieces, r, 7).unwrap();
            let bf = move_outcome(b0, r, 4, tr, 6).0;
            bf.pieces[rk].rank == r && bf.pieces[rk].file == 5 && !bf.pieces[rk].captured
        }),
{
    let b1 = materialize(b0, r, 4);
    lemma_materialize_wf(b0, r, 4);
    lemma_materialize_frame(b0, r, 4);
    lemma_occ_from_props(b1.pieces, r, 4, 0);
    let from = occupant(b1.pieces, r, 4).unwrap();
    let b2 = materialize(b1, tr, 6);
    lemma_materialize_wf(b1, tr, 6);
    lemma_materialize_frame(b1, tr, 6);
    lemma_occ_from_props(b2.pieces, tr, 6, 0);
    let bc = materialize(b2, r, 7);
    lemma_materialize_frame(b2, r, 7);
    lemma_occ_from_props(bc.pieces, r, 7, 0);
    let rk = occupant(bc.pieces, r, 7).unwrap();
    assert(piece_active_at(bc.pieces[from], r, 4));
    assert(piece_active_at(bc.pieces[rk], r, 7));
    assert(rk != from);
    let b3 = relocate_piece(bc, rk, r, 5);
    let b4 = relocate_piece(b3, from, tr, 6);
    let bf = push_move_entry(b4, from);
    assert(move_outcome(b0, r, 4, tr, 6).0 == bf);
    assert(bf.pieces[rk].rank == r && bf.pieces[rk].file == 5 && !bf.pieces[rk].captured);
}

/// A same-square request is never legal, whatever the board holds and
/// whatever the rules capability would answer.
pub proof fn lemma_same_square_illegal<R: PieceRules>(rules: R, b: BoardView, r: int, f: int)
    ensures
        legal_outcome(rules, b, r, f, r, f).1 == false,
{
}

/// A destination occupied by a piece of the mover's color is never
/// legal, even when the rules capability reports the shape as fine: the
/// same-color filter is authoritative.
pub proof fn lemma_same_color_illegal<R: PieceRules>(
    rules: R,
    b: BoardView,
    fr: int,
    ff: int,
    tr: int,
    tf: int,
)
    requires
        ({
            let b1 = materialize(b, fr, ff);
            occupant(b1.pieces, fr, ff) is Some && ({
                let b2 = materialize(b1, tr, tf);
                occupant(b2.pieces, tr, tf) is Some && b2.pieces[occupant(
                    b1.pieces,
                    fr,
                    ff,
                ).unwrap()].color == b2.pieces[occupant(b2.pieces, tr, tf).unwrap()].color
            })
        }),
    ensures
        legal_outcome(rules, b, fr, ff, tr, tf).1 == false,
{
}

/// One row of the windowed enumeration over a stable board — one the
/// queries cannot perturb because the origin and every row square are
/// already materialized — answers exactly the legal destinations of that
/// row, and leaves the board unchanged.
pub proof fn lemma_row_filter<R: PieceRules>(
    rules: R,
    b: BoardView,
    fr: int,
    ff: int,
    x: int,
    y: int,
    ye: int,
)
    requires
        materialize(b, fr, ff) == b,
        forall|y2: int| y <= y2 < ye ==> #[trigger] materialize(b, x, y2) == b,
    ensures
        window_row(rules, b, fr, ff, x, y, ye).0 == b,
        forall|p: (int, int)|
            #[trigger] window_row(rules, b, fr, ff, x, y, ye).1.contains(p) <==> (p.0 == x && y
                <= p.1 < ye && legal_outcome(rules, b, fr, ff, x, p.1).1),
    decreases (if y < ye {
        ye - y
    } else {
        0
    }),
{
    let row = window_row(rules, b, fr, ff, x, y, ye);
    if y >= ye {
        assert forall|p: (int, int)| !(#[trigger] row.1.contains(p)) by {
            assert(row.1.len() == 0);
        }
    } else {
        let step = legal_outcome(rules, b, fr, ff, x, y);
        assert(step.0 == b);
        lemma_row_filter(rules, b, fr, ff, x, y + 1, ye);
        let rest = window_row(rules, b, fr, ff, x, y + 1, ye);
        assert forall|p: (int, int)| #[trigger] row.1.contains(p) <==> (p.0 == x && y <= p.1 < ye
            && legal_outcome(rules, b, fr, ff, x, p.1).1) by {
            if step.1 {
                assert(row.1 == seq![(x, y)] + rest.1);
                if row.1.contains(p) {
                    let i = choose|i: int| 0 <= i < row.1.len() && row.1[i] == p;
                    if i == 0 {
                        assert(p == (x, y));
                    } else {
                        assert(rest.1[i - 1] == p);
                        assert(rest.1.contains(p));
                    }
                }
                if p == (x, y) {
                    assert(row.1[0] == p);
                }
                if rest.1.contains(p) {
                    let i = choose|i: int| 0 <= i < rest.1.len() && rest.1[i] == p;
                    assert(row.1[i + 1] == p);
                }
            } else {
                assert(row.1 == rest.1);
                if p == (x, y) && row.1.contains(p) {
                    assert(legal_outcome(rules, b, fr, ff, x, p.1).1 == step.1);
                }
            }
        }
    }
}

/// The windowed enumeration over `[x0, xe) x [y0, ye)` from a fixed
/// origin, on a stable board, returns exactly the set of legal
/// destinations intersected with that rectangle, and leaves the board
/// unchanged. An empty window (in particular any non-positive size)
/// returns nothing.
pub proof fn lemma_window_is_filter<R: PieceRules>(
    rules: R,
    b: BoardView,
    fr: int,
    ff: int,
    x0: int,
    xe: int,
    y0: int,
    ye: int,
)
    requires
        materialize(b, fr, ff) == b,
        forall|x: int, y: int|
            x0 <= x < xe && y0 <= y < ye ==> #[trigger] materialize(b, x, y) == b,
    ensures
        window_moves(rules, b, fr, ff, x0, xe, y0, ye).0 == b,
        forall|p: (int, int)|
            #[trigger] window_moves(rules, b, fr, ff, x0, xe, y0, ye).1.contains(p) <==> (x0 <= p.0
                < xe && y0 <= p.1 < ye && legal_outcome(rules, b, fr, ff, p.0, p.1).1),
    decreases (if x0 < xe {
        xe - x0
    } else {
        0
    }),
{
    let all = window_moves(rules, b, fr, ff, x0, xe, y0, ye);
    if x0 >= xe {
        assert forall|p: (int, int)| !(#[trigger] all.1.contains(p)) by {
            assert(all.1.len() == 0);
        }
    } else {
        assert forall|y2: int| y0 <= y2 < ye implies #[trigger] materialize(b, x0, y2) == b by {}
        lemma_row_filter(rules, b, fr, ff, x0, y0, ye);
        let row = window_row(rules, b, fr, ff, x0, y0, ye);
        lemma_window_is_filter(rules, b, fr, ff, x0 + 1, xe, y0, ye);
        let rest = window_moves(rules, b, fr, ff, x0 + 1, xe, y0, ye);
        assert(all.1 == row.1 + rest.1);
        assert forall|p: (int, int)| #[trigger] all.1.contains(p) <==> (x0 <= p.0 < xe && y0 <= p.1
            < ye && legal_outcome(rules, b, fr, ff, p.0, p.1).1) by {
            if all.1.contains(p) {
                let i = choose|i: int| 0 <= i < all.1.len() && all.1[i] == p;
                if i < row.1.len() {
                    assert(row.1[i] == p);
                    assert(row.1.contains(p));
                } else {
                    assert(rest.1[i - row.1.len()] == p);
                    assert(rest.1.contains(p));
                }
            }
            if row.1.contains(p) {
                let i = choose|i: int| 0 <= i < row.1.len() && row.1[i] == p;
                assert(all.1[i] == p);
            }
            if rest.1.contains(p) {
                let i = choose|i: int| 0 <= i < rest.1.len() && rest.1[i] == p;
                assert(all.1[row.1.len() + i] == p);
            }
        }
    }
}

} // verus!
