use vstd::prelude::*;
use crate::screen::BoardState;
use crate::values::Mino;

verus! {

/// Every one of the five upcoming pieces has been recognised.
pub open spec fn nexts_all_known(nexts: [Mino; 5]) -> bool {
    forall|i: int| 0 <= i < 5 ==> nexts@[i] != Mino::UNKNOWN
}

/// Whether all five upcoming pieces were recognised.
pub fn check_nexts_valid(nexts: [Mino; 5]) -> (valid: bool)
    ensures
        valid == nexts_all_known(nexts),
{
    let mut i: usize = 0;
    while i < 5
        invariant
            i <= 5,
            forall|j: int| 0 <= j < i ==> nexts@[j] != Mino::UNKNOWN,
        decreases 5 - i,
    {
        if nexts[i] == Mino::UNKNOWN {
            return false;
        }
        i = i + 1;
    }
    true
}


/// A game is in progress when every one of the five upcoming pieces is
/// recognised.
pub fn is_in_game(board_state: &BoardState) -> (in_game: bool)
    ensures
        in_game == nexts_all_known(board_state.nexts),
{
    if !check_nexts_valid(board_state.nexts) {
        return false;
    }
    true
}


/// The check fails as soon as any one of the five upcoming pieces, the first
/// included, is unrecognised, and passes when none is.
pub proof fn law_unknown_next_fails_check(nexts: [Mino; 5])
    ensures
        nexts@[0] == Mino::UNKNOWN ==> !nexts_all_known(nexts),
        nexts@[1] == Mino::UNKNOWN ==> !nexts_all_known(nexts),
        nexts@[2] == Mino::UNKNOWN ==> !nexts_all_known(nexts),
        nexts@[3] == Mino::UNKNOWN ==> !nexts_all_known(nexts),
        nexts@[4] == Mino::UNKNOWN ==> !nexts_all_known(nexts),
        (exists|i: int| 0 <= i < 5 && #[trigger] nexts@[i] == Mino::UNKNOWN) ==> !nexts_all_known(nexts),
        (nexts@[0] != Mino::UNKNOWN && nexts@[1] != Mino::UNKNOWN && nexts@[2] != Mino::UNKNOWN
            && nexts@[3] != Mino::UNKNOWN && nexts@[4] != Mino::UNKNOWN) ==> nexts_all_known(nexts),
{
}

} // verus!
