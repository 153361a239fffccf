use vstd::prelude::*;

use crate::game::{Player, Position};

verus! {

/// The time of the player to move, in milliseconds, unbounded when not given.
pub open spec fn remaining_time(wtime: Option<u32>, btime: Option<u32>, position: Position) -> u32 {
    match position.player {
        Player::White => match wtime {
            Some(t) => t,
            None => u32::MAX,
        },
        Player::Black => match btime {
            Some(t) => t,
            None => u32::MAX,
        },
    }
}

/// Sudden-death time control: the time to think on this move is the remaining time of the
/// player to move divided by `x`.
pub fn sudden_death_time_control(
    wtime: Option<u32>,
    btime: Option<u32>,
    x: u32,
    position: &Position,
) -> (r: u32)
    requires
        x > 0,
    ensures
        r == remaining_time(wtime, btime, *position) / x,
{
    let time = match position.player {
        Player::White => match wtime {
            Some(t) => t,
            None => u32::MAX,
        },
        Player::Black => match btime {
            Some(t) => t,
            None => u32::MAX,
        },
    };
    time / x
}

} // verus!
