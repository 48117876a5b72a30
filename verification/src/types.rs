//! Data model of the quest manager: accounts, campaign records, reporting
//! views, and the payloads of the events a surrounding runtime emits.
//!
//! An [`Address`] stands for a principal of the external authentication and
//! token systems. The library never interprets an address; it only compares
//! addresses for equality, so an address is carried as a plain 64-bit
//! identifier that the surrounding runtime assigns to each external principal.

use vstd::prelude::*;

verus! {

/// A principal: the organizer of a quest, a participant, or a token contract.
#[derive(Clone, Copy, Debug, PartialEq, Eq, Structural)]
pub struct Address {
    pub id: u64,
}

impl Address {
    pub fn new(id: u64) -> (a: Address)
        ensures
            a.id == id,
    {
        Address { id }
    }
}

/// How the winners of a quest are selected.
#[derive(Clone, Copy, Debug, PartialEq, Eq, Structural)]
pub enum DistributionType {
    /// A randomized draw over the eligible participants, run once at resolution.
    Raffle,
    /// First come, first served: eligible users are admitted until capacity.
    Fcfs,
}

/// The task a participant must complete, stored opaquely: the library never
/// interprets the payload, an external verifier checks the condition off-line.
#[derive(Clone, Copy, Debug, PartialEq, Eq, Structural)]
pub enum QuestType {
    /// Trade at least the given volume.
    TradeVolume(u128),
    /// Hold a pool position of at least the given size.
    PoolPosition(u128),
    /// Hold at least the given amount of the given token.
    TokenHold(Address, u128),
}

/// A quest campaign record.
#[derive(Clone, Debug)]
pub struct Quest {
    /// Monotonically assigned at creation, never reused.
    pub id: u64,
    /// The only principal authorized to mark eligibility, resolve, cancel.
    pub admin: Address,
    /// The asset the reward pool is denominated in.
    pub reward_token: Address,
    /// Amount paid to each winner; always positive.
    pub reward_per_winner: u128,
    /// Capacity of the winner set; always positive.
    pub max_winners: u32,
    pub distribution: DistributionType,
    pub quest_type: QuestType,
    /// Absolute close time: creation time plus the configured duration.
    pub end_timestamp: u64,
    /// True from creation until resolution or cancellation; never reactivated.
    pub is_active: bool,
    /// Escrowed at creation; at least `reward_per_winner * max_winners`.
    pub total_reward_pool: u128,
    pub title: String,
    pub description: String,
}

/// An instruction to the external token ledger: move `amount` of the quest's
/// reward token from contract custody to `to`. The library computes payouts
/// and refunds; the surrounding runtime executes them.
#[derive(Clone, Copy, Debug, PartialEq, Eq, Structural)]
pub struct Payout {
    pub to: Address,
    pub amount: u128,
}

/// Read-only per-quest reporting view.
#[derive(Clone, Copy, Debug, PartialEq, Eq, Structural)]
pub struct QuestStats {
    pub quest_id: u64,
    /// Number of registered users.
    pub total_registered: u32,
    /// Size of the eligible participant pool (raffle quests).
    pub total_eligible: u32,
    pub total_winners: u32,
    pub is_resolved: bool,
    /// Seconds until the close time, floored at zero.
    pub time_remaining: u64,
}

/// Read-only per-user reporting view.
#[derive(Clone, Copy, Debug, PartialEq, Eq, Structural)]
pub struct UserStats {
    pub total_participated: u32,
    pub total_won: u32,
    /// Sum of `reward_per_winner` over the quests the user won.
    pub total_rewards: u128,
    /// Basis points: `total_won * 10000 / total_participated`, zero when the
    /// user participated in no quest.
    pub win_rate: u128,
}

/// Payload of the event emitted when a quest is created.
#[derive(Clone, Copy, Debug, PartialEq, Eq, Structural)]
pub struct QuestCreatedEvent {
    pub quest_id: u64,
    pub admin: Address,
    pub reward_token: Address,
    pub distribution: DistributionType,
}

/// Payload of the event emitted when a user registers.
#[derive(Clone, Copy, Debug, PartialEq, Eq, Structural)]
pub struct UserRegisteredEvent {
    pub quest_id: u64,
    pub user: Address,
}

/// Payload of the event emitted when a quest is resolved.
#[derive(Clone, Copy, Debug, PartialEq, Eq, Structural)]
pub struct QuestResolvedEvent {
    pub quest_id: u64,
    pub winners_count: u32,
}

/// Parameters of a trade-volume condition.
#[derive(Clone, Copy, Debug, PartialEq, Eq, Structural)]
pub struct TradeVolumeQuest {
    pub target_volume: u128,
    /// The exchange on which the volume must be reached.
    pub dex_address: Address,
}

/// Parameters of a pool-position condition.
#[derive(Clone, Copy, Debug, PartialEq, Eq, Structural)]
pub struct PoolPositionQuest {
    pub min_position: u128,
    pub pool_address: Address,
}

/// Parameters of a token-holding condition.
#[derive(Clone, Copy, Debug, PartialEq, Eq, Structural)]
pub struct TokenHoldQuest {
    pub token: Address,
    pub min_amount: u128,
    /// Minimum time the holding must be kept, in seconds.
    pub hold_duration: u64,
}

/// Advanced participation settings, stored for external policy hooks only.
#[derive(Clone, Debug)]
pub struct QuestConfig {
    pub allow_multiple_entries: bool,
    pub require_kyc: bool,
    /// Minimum account age in seconds.
    pub min_account_age: u64,
    pub geographic_restrictions: String,
}

/// Descriptive metadata of a quest, stored opaquely.
#[derive(Clone, Debug)]
pub struct QuestMetadata {
    pub category: String,
    /// Difficulty from 1 to 5.
    pub difficulty: u32,
    pub estimated_completion_time: u64,
    pub external_url: String,
    pub image_url: String,
}

} // verus!
