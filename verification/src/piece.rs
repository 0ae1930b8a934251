//! Piece records: type label, color, current coordinate and the captured
//! tombstone flag. A piece's identity is its index in the board's arena;
//! captured pieces stay in the arena so identities remain stable.

use vstd::prelude::*;

use num_bigint::BigInt;

use crate::bigint::{big_clone, big_value};

verus! {

#[derive(PartialEq, Eq, Structural, Clone, Copy, Debug)]
pub enum Color {
    White,
    Black,
}

#[derive(PartialEq, Eq, Structural, Clone, Copy, Debug)]
pub enum PieceKind {
    Pawn,
    Knight,
    Bishop,
    Rook,
    Queen,
    King,
}

/// Mathematical image of a piece: the coordinate as plain integers.
#[verifier::ext_equal]
pub ghost struct PieceView {
    pub kind: PieceKind,
    pub color: Color,
    pub rank: int,
    pub file: int,
    pub captured: bool,
}

pub struct Piece {
    pub kind: PieceKind,
    pub color: Color,
    pub rank: BigInt,
    pub file: BigInt,
    pub captured: bool,
}

impl View for Piece {
    type V = PieceView;

    open spec fn view(&self) -> PieceView {
        PieceView {
            kind: self.kind,
            color: self.color,
            rank: big_value(self.rank),
            file: big_value(self.file),
            captured: self.captured,
        }
    }
}

impl Piece {
    /// A fresh, uncaptured piece at the given square.
    pub fn new(kind: PieceKind, color: Color, rank: BigInt, file: BigInt) -> (r: Piece)
        ensures
            r@ == (PieceView {
                kind,
                color,
                rank: big_value(rank),
                file: big_value(file),
                captured: false,
            }),
    {
        Piece { kind, color, rank, file, captured: false }
    }

    pub fn get_rank(&self) -> (r: &BigInt)
        ensures
            big_value(*r) == self@.rank,
    {
        &self.rank
    }

    pub fn get_file(&self) -> (r: &BigInt)
        ensures
            big_value(*r) == self@.file,
    {
        &self.file
    }

    pub fn get_kind(&self) -> (r: PieceKind)
        ensures
            r == self@.kind,
    {
        self.kind
    }

    pub fn get_color(&self) -> (r: Color)
        ensures
            r == self@.color,
    {
        self.color
    }

    pub fn is_captured(&self) -> (r: bool)
        ensures
            r == self@.captured,
    {
        self.captured
    }

    /// Tombstone the piece; it stays in the arena.
    pub fn capture(&mut self)
        ensures
            final(self)@ == (PieceView { captured: true, ..old(self)@ }),
    {
        self.captured = true;
    }

    /// Relocate the piece to the given square.
    pub fn goto(&mut self, rank: &BigInt, file: &BigInt)
        ensures
            final(self)@ == (PieceView {
                rank: big_value(*rank),
                file: big_value(*file),
                ..old(self)@
            }),
    {
        self.rank = big_clone(rank);
        self.file = big_clone(file);
    }

    /// Rewrite the type label in place (promotion).
    pub fn set_kind(&mut self, kind: PieceKind)
        ensures
            final(self)@ == (PieceView { kind, ..old(self)@ }),
    {
        self.kind = kind;
    }
}

} // verus!
