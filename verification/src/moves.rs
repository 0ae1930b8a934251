//! Append-only move history: one entry per applied move, recording the
//! identity of the piece that moved, in application order.

use vstd::prelude::*;

verus! {

pub struct Move {
    pub piece: usize,
}

impl View for Move {
    type V = int;

    open spec fn view(&self) -> int {
        self.piece as int
    }
}

impl Move {
    pub fn new(piece: usize) -> (r: Move)
        ensures
            r@ == piece as int,
    {
        Move { piece }
    }

    /// Identity of the piece this entry records.
    pub fn get_piece(&self) -> (r: usize)
        ensures
            r as int == self@,
    {
        self.piece
    }
}

} // verus!
