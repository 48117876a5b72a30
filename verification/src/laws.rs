//! The guarantees of the quest manager, stated across operations and proved
//! from the contracts in [`crate::manager`] and [`crate::draw`].

use vstd::prelude::*;
use crate::draw::lemma_raffle_draw_distinct;
use crate::draw::lemma_raffle_draw_len;
use crate::draw::lemma_raffle_draw_members;
use crate::errors::Error;
use crate::manager::cancel_applied;
use crate::manager::create_decision;
use crate::manager::distribute_applied;
use crate::manager::lemma_push_fresh;
use crate::manager::mark_applied;
use crate::manager::register_applied;
use crate::manager::resolve_applied;
use crate::manager::valid_terms;
use crate::manager::QuestManager;
use crate::types::Address;
use crate::types::DistributionType;

verus! {

/// Every stored quest's escrowed pool covers the worst-case payout:
/// `total_reward_pool >= reward_per_winner * max_winners`.
pub proof fn lemma_pool_covers_payout(s: QuestManager, quest_id: u64)
    requires
        s.wf(),
        s.has_quest(quest_id),
    ensures
        s.quest_at(quest_id).total_reward_pool >= s.quest_at(quest_id).reward_per_winner * s
            .quest_at(quest_id).max_winners,
{
    assert(valid_terms(s.quests@[quest_id as int]));
}

/// A creation request whose pool cannot cover the worst-case payout is
/// rejected with insufficient-reward-pool, and one with a sufficient pool
/// passes that check.
pub proof fn lemma_create_requires_funding(
    caller: Address,
    admin: Address,
    reward_per_winner: u128,
    max_winners: u32,
    duration_seconds: u64,
    reward_pool_amount: u128,
    admin_balance: u128,
)
    requires
        caller == admin,
        max_winners > 0,
        reward_per_winner > 0,
    ensures
        (reward_pool_amount as int) < (reward_per_winner as int) * (max_winners as int)
            <==> create_decision(
            caller,
            admin,
            reward_per_winner,
            max_winners,
            duration_seconds,
            reward_pool_amount,
            admin_balance,
        ) == Err::<(), Error>(Error::InsufficientRewardPool),
{
}

/// A (quest, user) pair registers at most once: after a successful
/// registration, a repeat attempt at any time up to the quest's close fails
/// with already-registered.
pub proof fn lemma_register_at_most_once(
    pre: QuestManager,
    post: QuestManager,
    quest_id: u64,
    user: Address,
    now: u64,
    later: u64,
)
    requires
        pre.wf(),
        pre.register_decision(user, quest_id, user, now) == Ok::<(), Error>(()),
        register_applied(pre, post, quest_id, user),
        later <= pre.quest_at(quest_id).end_timestamp,
    ensures
        post.register_decision(user, quest_id, user, later) == Err::<(), Error>(
            Error::AlreadyRegistered,
        ),
{
    lemma_push_fresh(pre.registered@[quest_id as int]@, user);
    assert(post.registered_at(quest_id).contains(user));
}

/// Registration timing for an existing, still active quest: past the close
/// time it always fails with quest-expired; at or before the close time,
/// with no registration fact in the way, it succeeds.
pub proof fn lemma_register_timing(s: QuestManager, quest_id: u64, user: Address, now: u64)
    requires
        s.wf(),
        s.has_quest(quest_id),
        s.quest_at(quest_id).is_active,
    ensures
        now > s.quest_at(quest_id).end_timestamp ==> s.register_decision(user, quest_id, user, now)
            == Err::<(), Error>(Error::QuestExpired),
        (now <= s.quest_at(quest_id).end_timestamp && !s.registered_at(quest_id).contains(user))
            ==> s.register_decision(user, quest_id, user, now) == Ok::<(), Error>(()),
{
}

/// The winner set never exceeds the quest's capacity, however many
/// eligibility marks have been issued: it holds in every reachable state.
pub proof fn lemma_winners_capped(s: QuestManager, quest_id: u64)
    requires
        s.wf(),
        s.has_quest(quest_id),
    ensures
        s.winners_at(quest_id).len() <= s.quest_at(quest_id).max_winners,
{
}

/// An eligibility mark on a first-come-first-served quest whose winner set
/// is full is dropped: the winner set stays exactly as it is.
pub proof fn lemma_fcfs_full_drops_marks(
    pre: QuestManager,
    post: QuestManager,
    quest_id: u64,
    user: Address,
)
    requires
        pre.wf(),
        pre.has_quest(quest_id),
        pre.quest_at(quest_id).distribution is Fcfs,
        pre.winners_at(quest_id).len() >= pre.quest_at(quest_id).max_winners,
        mark_applied(pre, post, quest_id, user),
    ensures
        post.winners_at(quest_id) == pre.winners_at(quest_id),
{
}

/// Resolving a raffle quest yields `min(max_winners, participants)` winners,
/// each drawn from the participant pool, none of them twice.
pub proof fn lemma_raffle_resolution(
    pre: QuestManager,
    post: QuestManager,
    quest_id: u64,
    now: u64,
)
    requires
        pre.wf(),
        pre.has_quest(quest_id),
        pre.quest_at(quest_id).distribution is Raffle,
        resolve_applied(pre, post, quest_id, now),
    ensures
        post.winners_at(quest_id).len() == vstd::math::min(
            pre.quest_at(quest_id).max_winners as int,
            pre.participants_at(quest_id).len() as int,
        ),
        forall|x: Address| #[trigger]
            post.winners_at(quest_id).contains(x) ==> pre.participants_at(quest_id).contains(x),
        post.winners_at(quest_id).no_duplicates(),
{
    let participants = pre.participants_at(quest_id);
    let k = pre.quest_at(quest_id).max_winners as nat;
    lemma_raffle_draw_len(participants, now, k);
    lemma_raffle_draw_members(participants, now, k);
    lemma_raffle_draw_distinct(participants, now, k);
}

/// Resolution demanded by the admin before the close time fails with
/// quest-not-finished.
pub proof fn lemma_resolve_needs_finish(s: QuestManager, quest_id: u64, now: u64)
    requires
        s.wf(),
        s.has_quest(quest_id),
        now < s.quest_at(quest_id).end_timestamp,
    ensures
        s.resolve_decision(s.quest_at(quest_id).admin, quest_id, now) == Err::<(), Error>(
            Error::QuestNotFinished,
        ),
{
}

/// Resolution is terminal: after a successful resolution, a repeat attempt
/// once past the close time fails with quest-already-resolved.
pub proof fn lemma_resolve_at_most_once(
    pre: QuestManager,
    post: QuestManager,
    quest_id: u64,
    now: u64,
    later: u64,
)
    requires
        pre.wf(),
        pre.resolve_decision(pre.quest_at(quest_id).admin, quest_id, now) == Ok::<(), Error>(()),
        resolve_applied(pre, post, quest_id, now),
        later >= pre.quest_at(quest_id).end_timestamp,
    ensures
        post.resolve_decision(pre.quest_at(quest_id).admin, quest_id, later) == Err::<(), Error>(
            Error::QuestAlreadyResolved,
        ),
{
}

/// A payout demanded of an open quest fails with quest-not-resolved; one
/// demanded of a resolved quest without winners, its pool still in custody,
/// fails with no-winners.
pub proof fn lemma_distribute_gating(s: QuestManager, quest_id: u64)
    requires
        s.wf(),
        s.has_quest(quest_id),
    ensures
        s.quest_at(quest_id).is_active ==> s.distribute_decision(
            s.quest_at(quest_id).admin,
            quest_id,
        ) == Err::<(), Error>(Error::QuestNotResolved),
        (!s.quest_at(quest_id).is_active && !s.settled_at(quest_id) && s.winners_at(
            quest_id,
        ).len() == 0) ==> s.distribute_decision(s.quest_at(quest_id).admin, quest_id) == Err::<
            (),
            Error,
        >(Error::NoWinners),
{
}

/// The pool is paid out at most once: after a successful payout, a repeat
/// demand fails with rewards-already-distributed.
pub proof fn lemma_distribute_at_most_once(pre: QuestManager, post: QuestManager, quest_id: u64)
    requires
        pre.wf(),
        pre.has_quest(quest_id),
        !pre.quest_at(quest_id).is_active,
        distribute_applied(pre, post, quest_id),
    ensures
        post.distribute_decision(post.quest_at(quest_id).admin, quest_id) == Err::<(), Error>(
            Error::RewardsAlreadyDistributed,
        ),
{
}

/// A refunded pool cannot be paid out: after a cancellation, a payout
/// demand fails with rewards-already-distributed, so refund and payout
/// exclude each other.
pub proof fn lemma_cancel_blocks_payout(pre: QuestManager, post: QuestManager, quest_id: u64)
    requires
        pre.wf(),
        pre.has_quest(quest_id),
        cancel_applied(pre, post, quest_id),
    ensures
        post.distribute_decision(post.quest_at(quest_id).admin, quest_id) == Err::<(), Error>(
            Error::RewardsAlreadyDistributed,
        ),
{
}

} // verus!
