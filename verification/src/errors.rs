//! The closed set of error kinds reported by quest operations.
//!
//! Every failing operation leaves the state untouched and reports exactly one
//! of these kinds; the contracts on the operations say which kind comes on
//! which inputs.

use vstd::prelude::*;

verus! {

#[derive(Clone, Copy, Debug, PartialEq, Eq, Structural)]
pub enum Error {
    QuestNotFound,
    QuestNotActive,
    QuestExpired,
    QuestNotFinished,
    QuestAlreadyResolved,
    QuestNotResolved,
    AlreadyRegistered,
    UserNotRegistered,
    InvalidMaxWinners,
    InvalidRewardAmount,
    InsufficientRewardPool,
    InvalidDuration,
    NoWinners,
    Unauthorized,
    InsufficientBalance,
    /// The reward pool of this quest has already left custody, either through
    /// a payout of the winners or through a refund on cancellation. A repeat
    /// `distribute_rewards` call is rejected with this kind so that no winner
    /// can be paid twice from the same pool.
    RewardsAlreadyDistributed,
}

} // verus!
