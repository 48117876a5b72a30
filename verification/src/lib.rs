//! A verified quest-campaign manager.
//!
//! The library models time-bounded reward campaigns ("quests"): an organizer
//! escrows a reward pool, participants register, a trusted verifier marks
//! participants eligible, and at campaign close a first-come-first-served or
//! randomized selection determines the winners who are paid from the pool.
//!
//! The host facilities of a deployment — signature checking, the token
//! ledger, persistent storage, the clock — are external collaborators. They
//! enter the library as plain values: the authenticated caller, the account
//! balance read from the ledger, and the current timestamp are arguments of
//! every operation that needs them, and payouts and refunds are returned as
//! instructions for the surrounding runtime to execute.

mod draw;
mod errors;
mod laws;
mod manager;
mod storage;
mod types;

pub use draw::lcg_next;
pub use draw::lemma_raffle_draw_distinct;
pub use draw::lemma_raffle_draw_len;
pub use draw::lemma_raffle_draw_members;
pub use draw::raffle_draw;
pub use draw::run_raffle_draw;
pub use errors::Error;
pub use laws::lemma_cancel_blocks_payout;
pub use laws::lemma_create_requires_funding;
pub use laws::lemma_distribute_at_most_once;
pub use laws::lemma_distribute_gating;
pub use laws::lemma_fcfs_full_drops_marks;
pub use laws::lemma_pool_covers_payout;
pub use laws::lemma_raffle_resolution;
pub use laws::lemma_register_at_most_once;
pub use laws::lemma_register_timing;
pub use laws::lemma_resolve_at_most_once;
pub use laws::lemma_resolve_needs_finish;
pub use laws::lemma_winners_capped;
pub use manager::cancel_applied;
pub use manager::create_applied;
pub use manager::create_decision;
pub use manager::distribute_applied;
pub use manager::mark_applied;
pub use manager::quest_live;
pub use manager::register_applied;
pub use manager::resolve_applied;
pub use manager::uq_keys_distinct;
pub use manager::uq_of;
pub use manager::valid_terms;
pub use manager::QuestManager;
pub use manager::UserQuestsEntry;
pub use storage::count_won;
pub use storage::sum_rewards;
pub use storage::win_rate_of;
pub use storage::StorageHelper;
pub use types::Address;
pub use types::DistributionType;
pub use types::Payout;
pub use types::PoolPositionQuest;
pub use types::Quest;
pub use types::QuestConfig;
pub use types::QuestCreatedEvent;
pub use types::QuestMetadata;
pub use types::QuestResolvedEvent;
pub use types::QuestStats;
pub use types::QuestType;
pub use types::TokenHoldQuest;
pub use types::TradeVolumeQuest;
pub use types::UserRegisteredEvent;
pub use types::UserStats;
