//! The pluggable movement-shape capability: "can this piece reach that
//! square, ignoring occupancy and capture-color rules". The board consumes
//! it through this trait so alternate rule sets can be substituted; the
//! authoritative same-color and same-square filters stay in the board.

use vstd::prelude::*;

use num_bigint::BigInt;

use crate::bigint::big_value;
use crate::board::{Board, BoardView};

verus! {

pub trait PieceRules: Sized {
    /// The answer the capability gives, as a function of the board state,
    /// the moving piece's identity and the destination square.
    spec fn spec_can_move(&self, board: BoardView, piece: int, to_rank: int, to_file: int) -> bool;

    /// Shape legality for moving `piece` to `(to_rank, to_file)`.
    fn can_move(&self, board: &Board, piece: usize, to_rank: &BigInt, to_file: &BigInt) -> (r:
        bool)
        ensures
            r == self.spec_can_move(
                board@,
                piece as int,
                big_value(*to_rank),
                big_value(*to_file),
            ),
    ;
}

/// A rule set that places no shape restriction at all: every piece may
/// reach every square. The board's own filters (same square, same color)
/// still apply on top of it.
pub struct PermissiveRules {}

impl PermissiveRules {
    pub fn new() -> (r: PermissiveRules) {
        PermissiveRules {  }
    }
}

impl PieceRules for PermissiveRules {
    open spec fn spec_can_move(
        &self,
        board: BoardView,
        piece: int,
        to_rank: int,
        to_file: int,
    ) -> bool {
        true
    }

    fn can_move(&self, board: &Board, piece: usize, to_rank: &BigInt, to_file: &BigInt) -> (r:
        bool) {
        true
    }
}

} // verus!
