//! Per-color tracker of which files have already received their lazily
//! materialized start-rank pawn. Files are unbounded (and may be negative),
//! so the backing store holds arbitrary-precision values; its view is the
//! set of marked file values.

use vstd::prelude::*;

use num_bigint::BigInt;

use crate::bigint::{big_clone, big_eq, big_value};

verus! {

pub struct PawnRank {
    pub files: Vec<BigInt>,
}

impl View for PawnRank {
    type V = Set<int>;

    open spec fn view(&self) -> Set<int> {
        Set::new(
            |v: int|
                exists|i: int| 0 <= i < self.files@.len() && big_value(self.files@[i]) == v,
        )
    }
}

impl PawnRank {
    pub fn new() -> (r: PawnRank)
        ensures
            r@ == Set::<int>::empty(),
    {
        let r = PawnRank { files: Vec::new() };
        proof {
            assert(r@ =~= Set::<int>::empty());
        }
        r
    }

    /// Whether the file has already been marked as materialized.
    #[verifier::loop_isolation(false)]
    pub fn has_materialized(&self, file: &BigInt) -> (r: bool)
        ensures
            r == self@.contains(big_value(*file)),
    {
        let mut i: usize = 0;
        while i < self.files.len()
            invariant
                0 <= i <= self.files@.len(),
                forall|j: int| 0 <= j < i ==> big_value(self.files@[j]) != big_value(*file),
            decreases self.files@.len() - i,
        {
            if big_eq(&self.files[i], file) {
                return true;
            }
            i += 1;
        }
        false
    }

    /// Mark the file as materialized; idempotent.
    pub fn mark_materialized(&mut self, file: &BigInt)
        ensures
            final(self)@ == old(self)@.insert(big_value(*file)),
    {
        if !self.has_materialized(file) {
            self.files.push(big_clone(file));
            proof {
                assert forall|v: int| final(self)@.contains(v) implies old(self)@.insert(
                    big_value(*file),
                ).contains(v) by {
                    let i = choose|i: int|
                        0 <= i < self.files@.len() && big_value(self.files@[i]) == v;
                    if i < self.files@.len() - 1 {
                        assert(old(self)@.contains(v));
                    }
                }
                assert forall|v: int| old(self)@.insert(big_value(*file)).contains(v) implies
                    final(self)@.contains(v) by {
                    if v == big_value(*file) {
                        assert(big_value(self.files@[self.files@.len() - 1]) == v);
                    } else {
                        let i = choose|i: int|
                            0 <= i < old(self).files@.len() && big_value(old(self).files@[i]) == v;
                        assert(big_value(self.files@[i]) == v);
                    }
                }
                assert(final(self)@ =~= old(self)@.insert(big_value(*file)));
            }
        } else {
            proof {
                assert(final(self)@ =~= old(self)@.insert(big_value(*file)));
            }
        }
    }
}

} // verus!
