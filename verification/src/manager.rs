//! The quest manager: the state owned by the contract and the operations of
//! its lifecycle.
//!
//! The state is explicit: quest records, per-quest registration, participant
//! and winner sets, the quest-id index, the per-user quest index, and the
//! per-quest settlement flag. Each operation takes the authenticated caller
//! and, where its behaviour depends on the clock or the external ledger,
//! the current timestamp or the relevant balance, as plain values.
//! A `..._decision` spec function states for every operation exactly which
//! inputs succeed and which error comes otherwise; a `..._applied` spec
//! function states how a successful operation changes the state. A failing
//! operation leaves the state untouched.

use vstd::prelude::*;
use crate::draw::lemma_raffle_draw_distinct;
use crate::draw::lemma_raffle_draw_len;
use crate::draw::lemma_raffle_draw_members;
use crate::draw::raffle_draw;
use crate::draw::run_raffle_draw;
use crate::errors::Error;
use crate::types::Address;
use crate::types::DistributionType;
use crate::types::Payout;
use crate::types::Quest;
use crate::types::QuestStats;
use crate::types::QuestType;

verus! {

/// One entry of the per-user quest index: the quests this user registered
/// for, in registration order.
pub struct UserQuestsEntry {
    pub user: Address,
    pub quest_ids: Vec<u64>,
}

/// The quest index of `user`: the `quest_ids` of the entry carrying `user`,
/// or the empty sequence when no entry does.
pub open spec fn uq_of(entries: Seq<UserQuestsEntry>, user: Address) -> Seq<u64>
    decreases entries.len(),
{
    if entries.len() == 0 {
        Seq::empty()
    } else if entries[0].user == user {
        entries[0].quest_ids@
    } else {
        uq_of(entries.drop_first(), user)
    }
}

/// Distinct users own distinct entries.
pub open spec fn uq_keys_distinct(entries: Seq<UserQuestsEntry>) -> bool {
    forall|p: int, q: int|
        0 <= p < entries.len() && 0 <= q < entries.len() && p != q ==> (#[trigger] entries[p]).user
            != (#[trigger] entries[q]).user
}

pub(crate) proof fn lemma_uq_lookup(entries: Seq<UserQuestsEntry>, user: Address, j: int)
    requires
        uq_keys_distinct(entries),
        0 <= j < entries.len(),
        entries[j].user == user,
    ensures
        uq_of(entries, user) == entries[j].quest_ids@,
    decreases entries.len(),
{
    if j == 0 {
    } else {
        assert(entries[0].user != user);
        assert(entries.drop_first()[j - 1] == entries[j]);
        assert(uq_keys_distinct(entries.drop_first())) by {
            assert forall|p: int, q: int|
                0 <= p < entries.drop_first().len() && 0 <= q < entries.drop_first().len() && p != q
                implies (#[trigger] entries.drop_first()[p]).user != (
            #[trigger] entries.drop_first()[q]).user by {
                assert(entries.drop_first()[p] == entries[p + 1]);
                assert(entries.drop_first()[q] == entries[q + 1]);
            };
        };
        lemma_uq_lookup(entries.drop_first(), user, j - 1);
    }
}

pub(crate) proof fn lemma_uq_absent(entries: Seq<UserQuestsEntry>, user: Address)
    requires
        forall|p: int| 0 <= p < entries.len() ==> (#[trigger] entries[p]).user != user,
    ensures
        uq_of(entries, user) == Seq::<u64>::empty(),
    decreases entries.len(),
{
    if entries.len() == 0 {
    } else {
        assert forall|p: int| 0 <= p < entries.drop_first().len() implies (
        #[trigger] entries.drop_first()[p]).user != user by {
            assert(entries.drop_first()[p] == entries[p + 1]);
        };
        lemma_uq_absent(entries.drop_first(), user);
    }
}

/// A nonempty quest index comes from some entry.
pub(crate) proof fn lemma_uq_entry_exists(entries: Seq<UserQuestsEntry>, user: Address)
    requires
        uq_of(entries, user).len() > 0,
    ensures
        exists|p: int|
            0 <= p < entries.len() && (#[trigger] entries[p]).user == user && entries[p].quest_ids@
                == uq_of(entries, user),
    decreases entries.len(),
{
    if entries.len() == 0 {
    } else if entries[0].user == user {
        assert(entries[0].user == user && entries[0].quest_ids@ == uq_of(entries, user));
    } else {
        lemma_uq_entry_exists(entries.drop_first(), user);
        let p = choose|p: int|
            0 <= p < entries.drop_first().len() && (#[trigger] entries.drop_first()[p]).user == user
                && entries.drop_first()[p].quest_ids@ == uq_of(entries.drop_first(), user);
        assert(entries.drop_first()[p] == entries[p + 1]);
        assert((#[trigger] entries[p + 1]).user == user && entries[p + 1].quest_ids@ == uq_of(
            entries,
            user,
        ));
    }
}

/// Replacing the index list of one entry leaves every other user's index
/// unchanged, and gives the entry's user the replaced list.
pub(crate) proof fn lemma_uq_update(
    pre: Seq<UserQuestsEntry>,
    post: Seq<UserQuestsEntry>,
    j: int,
)
    requires
        uq_keys_distinct(pre),
        0 <= j < pre.len(),
        post.len() == pre.len(),
        post[j].user == pre[j].user,
        forall|p: int| 0 <= p < pre.len() && p != j ==> post[p] == pre[p],
    ensures
        uq_of(post, pre[j].user) == post[j].quest_ids@,
        forall|x: Address| x != pre[j].user ==> uq_of(post, x) == uq_of(pre, x),
    decreases pre.len(),
{
    assert(uq_keys_distinct(post)) by {
        assert forall|p: int, q: int|
            0 <= p < post.len() && 0 <= q < post.len() && p != q implies (
        #[trigger] post[p]).user != (#[trigger] post[q]).user by {
            assert(post[p].user == pre[p].user);
            assert(post[q].user == pre[q].user);
        };
    };
    lemma_uq_lookup(post, pre[j].user, j);
    assert forall|x: Address| x != pre[j].user implies uq_of(post, x) == uq_of(pre, x) by {
        lemma_uq_other(pre, post, j, x);
    };
}

pub(crate) proof fn lemma_uq_other(
    pre: Seq<UserQuestsEntry>,
    post: Seq<UserQuestsEntry>,
    j: int,
    x: Address,
)
    requires
        0 <= j < pre.len(),
        post.len() == pre.len(),
        post[j].user == pre[j].user,
        forall|p: int| 0 <= p < pre.len() && p != j ==> post[p] == pre[p],
        x != pre[j].user,
    ensures
        uq_of(post, x) == uq_of(pre, x),
    decreases pre.len(),
{
    if pre.len() == 0 {
    } else if j == 0 {
        assert(post[0].user != x);
        assert(pre[0].user != x);
        assert(post.drop_first() =~= pre.drop_first()) by {
            assert forall|p: int| 0 <= p < pre.drop_first().len() implies post.drop_first()[p]
                == pre.drop_first()[p] by {
                assert(post.drop_first()[p] == post[p + 1]);
                assert(pre.drop_first()[p] == pre[p + 1]);
            };
        };
    } else {
        assert(post[0] == pre[0]);
        if pre[0].user == x {
        } else {
            assert forall|p: int|
                0 <= p < pre.drop_first().len() && p != j - 1 implies post.drop_first()[p]
                == pre.drop_first()[p] by {
                assert(post.drop_first()[p] == post[p + 1]);
                assert(pre.drop_first()[p] == pre[p + 1]);
            };
            assert(post.drop_first()[j - 1].user == pre.drop_first()[j - 1].user);
            lemma_uq_other(pre.drop_first(), post.drop_first(), j - 1, x);
        }
    }
}

/// Appending an entry for a new user leaves every other user's index
/// unchanged and gives the new user the appended list.
pub(crate) proof fn lemma_uq_push(entries: Seq<UserQuestsEntry>, e: UserQuestsEntry)
    requires
        forall|p: int| 0 <= p < entries.len() ==> (#[trigger] entries[p]).user != e.user,
    ensures
        uq_of(entries.push(e), e.user) == e.quest_ids@,
        forall|x: Address| x != e.user ==> uq_of(entries.push(e), x) == uq_of(entries, x),
    decreases entries.len(),
{
    if entries.len() == 0 {
        assert(entries.push(e)[0] == e);
        assert forall|x: Address| x != e.user implies uq_of(entries.push(e), x) == uq_of(
            entries,
            x,
        ) by {
            let d = entries.push(e).drop_first();
            assert(d =~= Seq::<UserQuestsEntry>::empty());
            assert(uq_of(entries.push(e), x) == uq_of(d, x));
            assert(uq_of(d, x) == Seq::<u64>::empty());
            assert(uq_of(entries, x) == Seq::<u64>::empty());
        };
    } else {
        assert(entries.push(e)[0] == entries[0]);
        assert(entries.push(e).drop_first() =~= entries.drop_first().push(e));
        assert forall|p: int| 0 <= p < entries.drop_first().len() implies (
        #[trigger] entries.drop_first()[p]).user != e.user by {
            assert(entries.drop_first()[p] == entries[p + 1]);
        };
        lemma_uq_push(entries.drop_first(), e);
        assert(entries[0].user != e.user);
        assert(uq_of(entries.push(e), e.user) == uq_of(entries.drop_first().push(e), e.user));
        assert forall|x: Address| x != e.user implies uq_of(entries.push(e), x) == uq_of(
            entries,
            x,
        ) by {
            if entries[0].user == x {
                assert(uq_of(entries.push(e), x) == entries[0].quest_ids@);
                assert(uq_of(entries, x) == entries[0].quest_ids@);
            } else {
                assert(uq_of(entries.push(e), x) == uq_of(entries.drop_first().push(e), x));
                assert(uq_of(entries.drop_first().push(e), x) == uq_of(entries.drop_first(), x));
                assert(uq_of(entries, x) == uq_of(entries.drop_first(), x));
            }
        };
    }
}

/// The state of the quest manager. The outer vectors `registered`,
/// `participants`, `winners` and `settled` run parallel to `quests`: index
/// `i` belongs to the quest with id `i`.
pub struct QuestManager {
    /// All quest records, in creation order; the quest with id `i` sits at
    /// index `i`, so the creation counter is the length of this vector.
    pub quests: Vec<Quest>,
    /// The global quest-id index: append-only in normal operation, every
    /// entry a valid id, no entry twice.
    pub quest_ids: Vec<u64>,
    /// Per quest, the users who registered, in registration order, nobody
    /// twice.
    pub registered: Vec<Vec<Address>>,
    /// Per quest, the users marked eligible for the raffle draw, nobody
    /// twice. Unused by first-come-first-served quests.
    pub participants: Vec<Vec<Address>>,
    /// Per quest, the users entitled to payment: admitted incrementally for
    /// first-come-first-served quests, written once at resolution for raffle
    /// quests. Never longer than the quest's `max_winners`, nobody twice.
    pub winners: Vec<Vec<Address>>,
    /// Per quest, whether the reward pool has left custody: set by a payout
    /// of the winners and by a refund on cancellation, never cleared.
    pub settled: Vec<bool>,
    /// Per user, the quests the user registered for.
    pub user_quests: Vec<UserQuestsEntry>,
}

/// The creation terms every stored quest satisfies.
pub open spec fn valid_terms(q: Quest) -> bool {
    &&& q.max_winners > 0
    &&& q.reward_per_winner > 0
    &&& q.total_reward_pool >= q.reward_per_winner * q.max_winners
}

impl QuestManager {
    /// Number of quests ever created; also the id the next quest gets.
    pub open spec fn quest_count(self) -> int {
        self.quests@.len() as int
    }

    pub open spec fn has_quest(self, quest_id: u64) -> bool {
        (quest_id as int) < self.quest_count()
    }

    pub open spec fn quest_at(self, quest_id: u64) -> Quest {
        self.quests@[quest_id as int]
    }

    pub open spec fn registered_at(self, quest_id: u64) -> Seq<Address> {
        self.registered@[quest_id as int]@
    }

    pub open spec fn participants_at(self, quest_id: u64) -> Seq<Address> {
        self.participants@[quest_id as int]@
    }

    pub open spec fn winners_at(self, quest_id: u64) -> Seq<Address> {
        self.winners@[quest_id as int]@
    }

    /// Whether the reward pool of this quest has left custody.
    pub open spec fn settled_at(self, quest_id: u64) -> bool {
        self.settled@[quest_id as int]
    }

    /// The quests `user` registered for, in registration order.
    pub open spec fn user_quests_of(self, user: Address) -> Seq<u64> {
        uq_of(self.user_quests@, user)
    }

    /// Which registration requests succeed: the caller must be the
    /// authenticated user, the quest must exist, still be active, not yet be
    /// past its close time, and the user must not be registered already.
    /// Checked in this order.
    pub open spec fn register_decision(
        self,
        caller: Address,
        quest_id: u64,
        user: Address,
        now: u64,
    ) -> Result<(), Error> {
        if caller != user {
            Err(Error::Unauthorized)
        } else if !self.has_quest(quest_id) {
            Err(Error::QuestNotFound)
        } else if !self.quest_at(quest_id).is_active {
            Err(Error::QuestNotActive)
        } else if now > self.quest_at(quest_id).end_timestamp {
            Err(Error::QuestExpired)
        } else if self.registered_at(quest_id).contains(user) {
            Err(Error::AlreadyRegistered)
        } else {
            Ok(())
        }
    }

    /// Which eligibility marks succeed: the quest must exist, the caller
    /// must be its admin (the trusted off-line verifier), the quest must
    /// still be active and the user registered. Checked in this order. A
    /// successful mark may still be a silent no-op: see [`mark_applied`].
    pub open spec fn mark_decision(self, caller: Address, quest_id: u64, user: Address) -> Result<
        (),
        Error,
    > {
        if !self.has_quest(quest_id) {
            Err(Error::QuestNotFound)
        } else if caller != self.quest_at(quest_id).admin {
            Err(Error::Unauthorized)
        } else if !self.quest_at(quest_id).is_active {
            Err(Error::QuestNotActive)
        } else if !self.registered_at(quest_id).contains(user) {
            Err(Error::UserNotRegistered)
        } else {
            Ok(())
        }
    }

    /// Which resolutions succeed: the quest must exist, the caller must be
    /// its admin, the close time must have passed, and the quest must not be
    /// closed already. Checked in this order.
    pub open spec fn resolve_decision(self, caller: Address, quest_id: u64, now: u64) -> Result<
        (),
        Error,
    > {
        if !self.has_quest(quest_id) {
            Err(Error::QuestNotFound)
        } else if caller != self.quest_at(quest_id).admin {
            Err(Error::Unauthorized)
        } else if now < self.quest_at(quest_id).end_timestamp {
            Err(Error::QuestNotFinished)
        } else if !self.quest_at(quest_id).is_active {
            Err(Error::QuestAlreadyResolved)
        } else {
            Ok(())
        }
    }

    /// Which payouts succeed: the quest must exist, the caller must be its
    /// admin, the quest must be closed, its pool must not have left custody
    /// already, and there must be a winner. Checked in this order.
    pub open spec fn distribute_decision(self, caller: Address, quest_id: u64) -> Result<
        (),
        Error,
    > {
        if !self.has_quest(quest_id) {
            Err(Error::QuestNotFound)
        } else if caller != self.quest_at(quest_id).admin {
            Err(Error::Unauthorized)
        } else if self.quest_at(quest_id).is_active {
            Err(Error::QuestNotResolved)
        } else if self.settled_at(quest_id) {
            Err(Error::RewardsAlreadyDistributed)
        } else if self.winners_at(quest_id).len() == 0 {
            Err(Error::NoWinners)
        } else {
            Ok(())
        }
    }

    /// Which cancellations succeed: the quest must exist, the caller must be
    /// its admin, and the quest must still be active. Checked in this order.
    pub open spec fn cancel_decision(self, caller: Address, quest_id: u64) -> Result<(), Error> {
        if !self.has_quest(quest_id) {
            Err(Error::QuestNotFound)
        } else if caller != self.quest_at(quest_id).admin {
            Err(Error::Unauthorized)
        } else if !self.quest_at(quest_id).is_active {
            Err(Error::QuestNotActive)
        } else {
            Ok(())
        }
    }

    /// Well-formedness: the invariants that hold at every observable state
    /// boundary.
    pub open spec fn wf(self) -> bool {
        &&& self.registered@.len() == self.quests@.len()
        &&& self.participants@.len() == self.quests@.len()
        &&& self.winners@.len() == self.quests@.len()
        &&& self.settled@.len() == self.quests@.len()
        // ids are assigned by the monotonic counter and never reused
        &&& forall|i: int| 0 <= i < self.quests@.len() ==> (#[trigger] self.quests@[i]).id == i
        // the validated creation terms are immutable
        &&& forall|i: int| 0 <= i < self.quests@.len() ==> valid_terms(#[trigger] self.quests@[i])
        // the winner set never exceeds the quest's capacity
        &&& forall|i: int|
            0 <= i < self.quests@.len() ==> (#[trigger] self.winners@[i])@.len()
                <= self.quests@[i].max_winners
        // no duplicates within registrations, participants, or winners
        &&& forall|i: int|
            0 <= i < self.quests@.len() ==> (#[trigger] self.registered@[i])@.no_duplicates()
        &&& forall|i: int|
            0 <= i < self.quests@.len() ==> (#[trigger] self.participants@[i])@.no_duplicates()
        &&& forall|i: int|
            0 <= i < self.quests@.len() ==> (#[trigger] self.winners@[i])@.no_duplicates()
        // only registered users are marked eligible or admitted as winners
        &&& forall|i: int, x: Address|
            0 <= i < self.quests@.len() && (#[trigger] self.participants@[i]@.contains(x))
                ==> self.registered@[i]@.contains(x)
        &&& forall|i: int, x: Address|
            0 <= i < self.quests@.len() && (#[trigger] self.winners@[i]@.contains(x))
                ==> self.registered@[i]@.contains(x)
        // the global id index holds valid ids, none twice
        &&& self.quest_ids@.no_duplicates()
        &&& forall|i: int|
            0 <= i < self.quest_ids@.len() ==> (#[trigger] self.quest_ids@[i]) < self.quests@.len()
        // one index entry per user, each holding valid ids, none twice
        &&& uq_keys_distinct(self.user_quests@)
        &&& forall|p: int|
            0 <= p < self.user_quests@.len() ==> (
            #[trigger] self.user_quests@[p]).quest_ids@.no_duplicates()
        &&& forall|p: int, j: int|
            0 <= p < self.user_quests@.len() && 0 <= j < (
            #[trigger] self.user_quests@[p]).quest_ids@.len() ==> (
            #[trigger] self.user_quests@[p].quest_ids@[j]) < self.quests@.len()
        // the per-quest and per-user registration indexes agree
        &&& forall|qid: u64, x: Address|
            (qid as int) < self.quests@.len() ==> ((
            #[trigger] self.registered@[qid as int]@.contains(x)) <==> uq_of(
                self.user_quests@,
                x,
            ).contains(qid))
        // a settled pool belongs to a closed quest
        &&& forall|i: int|
            0 <= i < self.quests@.len() && (#[trigger] self.settled@[i])
                ==> !self.quests@[i].is_active
    }
}

/// Which creation requests succeed: the caller must be the authenticated
/// admin, the terms must be valid, and the admin's balance of the reward
/// token must cover the pool. Checked in this order.
pub open spec fn create_decision(
    caller: Address,
    admin: Address,
    reward_per_winner: u128,
    max_winners: u32,
    duration_seconds: u64,
    reward_pool_amount: u128,
    admin_balance: u128,
) -> Result<(), Error> {
    if caller != admin {
        Err(Error::Unauthorized)
    } else if max_winners == 0 {
        Err(Error::InvalidMaxWinners)
    } else if reward_per_winner == 0 {
        Err(Error::InvalidRewardAmount)
    } else if (reward_pool_amount as int) < (reward_per_winner as int) * (max_winners as int) {
        Err(Error::InsufficientRewardPool)
    } else if duration_seconds == 0 {
        Err(Error::InvalidDuration)
    } else if admin_balance < reward_pool_amount {
        Err(Error::InsufficientBalance)
    } else {
        Ok(())
    }
}

/// How a successful creation changes the state: one quest appended with the
/// validated terms, its id entered into the global index, empty registration,
/// participant and winner sets, an unsettled pool, and nothing else touched.
pub open spec fn create_applied(
    pre: QuestManager,
    post: QuestManager,
    admin: Address,
    reward_token: Address,
    reward_per_winner: u128,
    max_winners: u32,
    distribution: DistributionType,
    quest_type: QuestType,
    duration_seconds: u64,
    reward_pool_amount: u128,
    title: String,
    description: String,
    now: u64,
) -> bool {
    let n = pre.quests@.len() as int;
    &&& post.quests@ == pre.quests@.push(
        (Quest {
            id: n as u64,
            admin,
            reward_token,
            reward_per_winner,
            max_winners,
            distribution,
            quest_type,
            end_timestamp: (now + duration_seconds) as u64,
            is_active: true,
            total_reward_pool: reward_pool_amount,
            title,
            description,
        }),
    )
    &&& post.quest_ids@ == pre.quest_ids@.push(n as u64)
    &&& post.registered@.len() == n + 1
    &&& post.participants@.len() == n + 1
    &&& post.winners@.len() == n + 1
    &&& post.settled@.len() == n + 1
    &&& forall|i: int| 0 <= i < n ==> #[trigger] post.registered@[i] == pre.registered@[i]
    &&& forall|i: int| 0 <= i < n ==> #[trigger] post.participants@[i] == pre.participants@[i]
    &&& forall|i: int| 0 <= i < n ==> #[trigger] post.winners@[i] == pre.winners@[i]
    &&& forall|i: int| 0 <= i < n ==> #[trigger] post.settled@[i] == pre.settled@[i]
    &&& post.registered@[n]@ == Seq::<Address>::empty()
    &&& post.participants@[n]@ == Seq::<Address>::empty()
    &&& post.winners@[n]@ == Seq::<Address>::empty()
    &&& post.settled@[n] == false
    &&& post.user_quests@ == pre.user_quests@
}

/// How a successful registration changes the state: the user enters the
/// quest's registration set and the quest enters the user's index; nothing
/// else is touched.
pub open spec fn register_applied(
    pre: QuestManager,
    post: QuestManager,
    quest_id: u64,
    user: Address,
) -> bool {
    &&& post.quests@ == pre.quests@
    &&& post.quest_ids@ == pre.quest_ids@
    &&& post.participants@ == pre.participants@
    &&& post.winners@ == pre.winners@
    &&& post.settled@ == pre.settled@
    &&& post.registered@.len() == pre.registered@.len()
    &&& post.registered@[quest_id as int]@ == pre.registered@[quest_id as int]@.push(user)
    &&& forall|i: int|
        0 <= i < pre.registered@.len() && i != quest_id as int ==> #[trigger] post.registered@[i]
            == pre.registered@[i]
    &&& post.user_quests_of(user) == pre.user_quests_of(user).push(quest_id)
    &&& forall|x: Address|
        x != user ==> #[trigger] post.user_quests_of(x) == pre.user_quests_of(x)
}

/// How a successful eligibility mark changes the state. For a
/// first-come-first-served quest the user is admitted as a winner, unless
/// capacity is reached (the mark is dropped, not queued) or the user is a
/// winner already. For a raffle quest the user enters the participant pool,
/// unless already in it. Nothing else is touched.
pub open spec fn mark_applied(
    pre: QuestManager,
    post: QuestManager,
    quest_id: u64,
    user: Address,
) -> bool {
    let q = pre.quest_at(quest_id);
    &&& post.quests@ == pre.quests@
    &&& post.quest_ids@ == pre.quest_ids@
    &&& post.registered@ == pre.registered@
    &&& post.settled@ == pre.settled@
    &&& post.user_quests@ == pre.user_quests@
    &&& match q.distribution {
        DistributionType::Fcfs => {
            &&& post.participants@ == pre.participants@
            &&& post.winners@.len() == pre.winners@.len()
            &&& forall|i: int|
                0 <= i < pre.winners@.len() && i != quest_id as int
                    ==> #[trigger] post.winners@[i] == pre.winners@[i]
            &&& if pre.winners_at(quest_id).len() < q.max_winners && !pre.winners_at(
                quest_id,
            ).contains(user) {
                post.winners_at(quest_id) == pre.winners_at(quest_id).push(user)
            } else {
                post.winners@[quest_id as int] == pre.winners@[quest_id as int]
            }
        },
        DistributionType::Raffle => {
            &&& post.winners@ == pre.winners@
            &&& post.participants@.len() == pre.participants@.len()
            &&& forall|i: int|
                0 <= i < pre.participants@.len() && i != quest_id as int
                    ==> #[trigger] post.participants@[i] == pre.participants@[i]
            &&& if !pre.participants_at(quest_id).contains(user) {
                post.participants_at(quest_id) == pre.participants_at(quest_id).push(user)
            } else {
                post.participants@[quest_id as int] == pre.participants@[quest_id as int]
            }
        },
    }
}

/// How a successful resolution changes the state: the quest is closed, and
/// for a raffle quest the winner set is overwritten with the draw over the
/// participant pool, seeded with the resolution timestamp. The winner set of
/// a first-come-first-served quest is already final and left untouched.
/// Nothing else changes.
pub open spec fn resolve_applied(
    pre: QuestManager,
    post: QuestManager,
    quest_id: u64,
    now: u64,
) -> bool {
    let q = pre.quest_at(quest_id);
    &&& post.quests@.len() == pre.quests@.len()
    &&& post.quest_at(quest_id) == (Quest { is_active: false, ..q })
    &&& forall|i: int|
        0 <= i < pre.quests@.len() && i != quest_id as int ==> #[trigger] post.quests@[i]
            == pre.quests@[i]
    &&& post.quest_ids@ == pre.quest_ids@
    &&& post.registered@ == pre.registered@
    &&& post.participants@ == pre.participants@
    &&& post.settled@ == pre.settled@
    &&& post.user_quests@ == pre.user_quests@
    &&& post.winners@.len() == pre.winners@.len()
    &&& forall|i: int|
        0 <= i < pre.winners@.len() && i != quest_id as int ==> #[trigger] post.winners@[i]
            == pre.winners@[i]
    &&& match q.distribution {
        DistributionType::Raffle => post.winners_at(quest_id) == raffle_draw(
            pre.participants_at(quest_id),
            now,
            q.max_winners as nat,
        ),
        DistributionType::Fcfs => post.winners@[quest_id as int] == pre.winners@[quest_id as int],
    }
}

/// How a successful payout changes the state: the pool is marked as having
/// left custody; nothing else changes. The payment instructions themselves
/// are the return value of `distribute_rewards`.
pub open spec fn distribute_applied(pre: QuestManager, post: QuestManager, quest_id: u64) -> bool {
    &&& post.quests@ == pre.quests@
    &&& post.quest_ids@ == pre.quest_ids@
    &&& post.registered@ == pre.registered@
    &&& post.participants@ == pre.participants@
    &&& post.winners@ == pre.winners@
    &&& post.user_quests@ == pre.user_quests@
    &&& post.settled@ == pre.settled@.update(quest_id as int, true)
}

/// How a successful cancellation changes the state: the quest is closed and
/// its pool is marked as having left custody (the refund to the admin is the
/// return value of `cancel_quest`). Nothing else changes.
pub open spec fn cancel_applied(pre: QuestManager, post: QuestManager, quest_id: u64) -> bool {
    let q = pre.quest_at(quest_id);
    &&& post.quests@.len() == pre.quests@.len()
    &&& post.quest_at(quest_id) == (Quest { is_active: false, ..q })
    &&& forall|i: int|
        0 <= i < pre.quests@.len() && i != quest_id as int ==> #[trigger] post.quests@[i]
            == pre.quests@[i]
    &&& post.quest_ids@ == pre.quest_ids@
    &&& post.registered@ == pre.registered@
    &&& post.participants@ == pre.participants@
    &&& post.winners@ == pre.winners@
    &&& post.user_quests@ == pre.user_quests@
    &&& post.settled@ == pre.settled@.update(quest_id as int, true)
}

/// Linear search of a user set.
pub(crate) fn contains_address(v: &Vec<Address>, x: Address) -> (b: bool)
    ensures
        b == v@.contains(x),
{
    let mut i: usize = 0;
    while i < v.len()
        invariant
            0 <= i <= v@.len(),
            forall|j: int| 0 <= j < i ==> v@[j] != x,
        decreases v@.len() - i,
    {
        if v[i] == x {
            return true;
        }
        i += 1;
    }
    false
}

/// Linear search of the per-user quest index.
fn find_user_entry(entries: &Vec<UserQuestsEntry>, user: Address) -> (r: Option<usize>)
    ensures
        match r {
            Some(j) => j < entries@.len() && entries@[j as int].user == user,
            None => forall|p: int|
                0 <= p < entries@.len() ==> (#[trigger] entries@[p]).user != user,
        },
{
    let mut i: usize = 0;
    while i < entries.len()
        invariant
            0 <= i <= entries@.len(),
            forall|p: int| 0 <= p < i ==> (#[trigger] entries@[p]).user != user,
        decreases entries@.len() - i,
    {
        if entries[i].user == user {
            return Some(i);
        }
        i += 1;
    }
    None
}

impl QuestManager {
    /// The state of a fresh deployment: no quest yet.
    pub fn new() -> (s: QuestManager)
        ensures
            s.wf(),
            s.quest_count() == 0,
            s.quest_ids@.len() == 0,
            s.user_quests@.len() == 0,
    {
        QuestManager {
            quests: Vec::new(),
            quest_ids: Vec::new(),
            registered: Vec::new(),
            participants: Vec::new(),
            winners: Vec::new(),
            settled: Vec::new(),
            user_quests: Vec::new(),
        }
    }

    /// Creates a quest: validates the terms, escrows the pool (the caller
    /// hands in the admin's balance of the reward token; the surrounding
    /// runtime performs the transfer of `reward_pool_amount` into custody
    /// atomically with this call), assigns the next id and stores the record.
    pub fn create_quest(
        &mut self,
        caller: Address,
        admin: Address,
        reward_token: Address,
        reward_per_winner: u128,
        max_winners: u32,
        distribution: DistributionType,
        quest_type: QuestType,
        duration_seconds: u64,
        reward_pool_amount: u128,
        title: String,
        description: String,
        now: u64,
        admin_balance: u128,
    ) -> (r: Result<u64, Error>)
        requires
            old(self).wf(),
            now + duration_seconds <= u64::MAX,
        ensures
            final(self).wf(),
            match r {
                Ok(quest_id) => {
                    &&& create_decision(
                        caller,
                        admin,
                        reward_per_winner,
                        max_winners,
                        duration_seconds,
                        reward_pool_amount,
                        admin_balance,
                    ) == Ok::<(), Error>(())
                    &&& quest_id == old(self).quest_count()
                    &&& create_applied(
                        *old(self),
                        *final(self),
                        admin,
                        reward_token,
                        reward_per_winner,
                        max_winners,
                        distribution,
                        quest_type,
                        duration_seconds,
                        reward_pool_amount,
                        title,
                        description,
                        now,
                    )
                },
                Err(e) => {
                    &&& create_decision(
                        caller,
                        admin,
                        reward_per_winner,
                        max_winners,
                        duration_seconds,
                        reward_pool_amount,
                        admin_balance,
                    ) == Err::<(), Error>(e)
                    &&& *final(self) == *old(self)
                },
            },
    {
        if caller != admin {
            return Err(Error::Unauthorized);
        }
        if max_winners == 0 {
            return Err(Error::InvalidMaxWinners);
        }
        if reward_per_winner == 0 {
            return Err(Error::InvalidRewardAmount);
        }
        match reward_per_winner.checked_mul(max_winners as u128) {
            None => {
                return Err(Error::InsufficientRewardPool);
            },
            Some(required) => {
                if reward_pool_amount < required {
                    return Err(Error::InsufficientRewardPool);
                }
            },
        }
        if duration_seconds == 0 {
            return Err(Error::InvalidDuration);
        }
        if admin_balance < reward_pool_amount {
            return Err(Error::InsufficientBalance);
        }
        let quest_id: u64 = self.quests.len() as u64;
        let quest = Quest {
            id: quest_id,
            admin,
            reward_token,
            reward_per_winner,
            max_winners,
            distribution,
            quest_type,
            end_timestamp: now + duration_seconds,
            is_active: true,
            total_reward_pool: reward_pool_amount,
            title,
            description,
        };
        self.quests.push(quest);
        self.quest_ids.push(quest_id);
        self.registered.push(Vec::new());
        self.participants.push(Vec::new());
        self.winners.push(Vec::new());
        self.settled.push(false);
        proof {
            let pre = *old(self);
            let post = *self;
            let n = pre.quests@.len() as int;
            assert(post.quest_ids@.no_duplicates()) by {
                assert forall|p: int, q: int|
                    0 <= p < post.quest_ids@.len() && 0 <= q < post.quest_ids@.len() && p != q
                    implies post.quest_ids@[p] != post.quest_ids@[q] by {
                    if p < pre.quest_ids@.len() && q < pre.quest_ids@.len() {
                        assert(pre.quest_ids@[p] != pre.quest_ids@[q]);
                    } else if p < pre.quest_ids@.len() {
                        assert(pre.quest_ids@[p] < n);
                    } else {
                        assert(pre.quest_ids@[q] < n);
                    }
                };
            };
            assert forall|qid: u64, x: Address| (qid as int) < post.quests@.len() implies ((
            #[trigger] post.registered@[qid as int]@.contains(x)) <==> uq_of(
                post.user_quests@,
                x,
            ).contains(qid)) by {
                let i = qid as int;
                if i < n {
                    assert(post.registered@[i] == pre.registered@[i]);
                    assert(pre.registered@[i]@.contains(x) <==> uq_of(
                        pre.user_quests@,
                        x,
                    ).contains(qid));
                } else {
                    assert(!post.registered@[i]@.contains(x));
                    if uq_of(post.user_quests@, x).contains(qid) {
                        lemma_uq_entry_exists(post.user_quests@, x);
                        let p = choose|p: int|
                            0 <= p < post.user_quests@.len() && (
                            #[trigger] post.user_quests@[p]).user == x
                                && post.user_quests@[p].quest_ids@ == uq_of(post.user_quests@, x);
                        let j = choose|j: int|
                            0 <= j < post.user_quests@[p].quest_ids@.len()
                                && post.user_quests@[p].quest_ids@[j] == qid;
                        assert(post.user_quests@[p].quest_ids@[j] < n);
                    }
                }
            };
        }
        Ok(quest_id)
    }

    /// Registers `user` for a quest: records the registration fact and
    /// appends the quest to the user's index.
    pub fn register(&mut self, caller: Address, quest_id: u64, user: Address, now: u64) -> (r:
        Result<(), Error>)
        requires
            old(self).wf(),
        ensures
            final(self).wf(),
            match r {
                Ok(u) => {
                    &&& old(self).register_decision(caller, quest_id, user, now) == Ok::<
                        (),
                        Error,
                    >(())
                    &&& register_applied(*old(self), *final(self), quest_id, user)
                },
                Err(e) => {
                    &&& old(self).register_decision(caller, quest_id, user, now) == Err::<
                        (),
                        Error,
                    >(e)
                    &&& *final(self) == *old(self)
                },
            },
    {
        if caller != user {
            return Err(Error::Unauthorized);
        }
        if quest_id >= self.quests.len() as u64 {
            return Err(Error::QuestNotFound);
        }
        let qi = quest_id as usize;
        if !self.quests[qi].is_active {
            return Err(Error::QuestNotActive);
        }
        if now > self.quests[qi].end_timestamp {
            return Err(Error::QuestExpired);
        }
        if contains_address(&self.registered[qi], user) {
            return Err(Error::AlreadyRegistered);
        }
        let ghost pre = *self;
        self.registered[qi].push(user);
        proof {
            // the user's quest index does not hold this quest yet
            assert(pre.registered@[quest_id as int]@.contains(user) <==> uq_of(
                pre.user_quests@,
                user,
            ).contains(quest_id));
            assert(!uq_of(pre.user_quests@, user).contains(quest_id));
        }
        match find_user_entry(&self.user_quests, user) {
            Some(j) => {
                proof {
                    lemma_uq_lookup(pre.user_quests@, user, j as int);
                    lemma_push_contains_u64(pre.user_quests@[j as int].quest_ids@, quest_id);
                }
                self.user_quests[j].quest_ids.push(quest_id);
                proof {
                    lemma_uq_update(pre.user_quests@, self.user_quests@, j as int);
                    // one entry per user: the users are unchanged
                    assert forall|p: int, q: int|
                        0 <= p < self.user_quests@.len() && 0 <= q < self.user_quests@.len() && p
                            != q implies (#[trigger] self.user_quests@[p]).user != (
                    #[trigger] self.user_quests@[q]).user by {
                        assert(self.user_quests@[p].user == pre.user_quests@[p].user);
                        assert(self.user_quests@[q].user == pre.user_quests@[q].user);
                    };
                    // valid, duplicate-free ids in every entry
                    assert forall|p: int| 0 <= p < self.user_quests@.len() implies (
                    #[trigger] self.user_quests@[p]).quest_ids@.no_duplicates() by {
                        if p != j as int {
                            assert(self.user_quests@[p] == pre.user_quests@[p]);
                        }
                    };
                    assert forall|p: int, jj: int|
                        0 <= p < self.user_quests@.len() && 0 <= jj < (
                        #[trigger] self.user_quests@[p]).quest_ids@.len() implies (
                    #[trigger] self.user_quests@[p].quest_ids@[jj]) < self.quests@.len() by {
                        if p != j as int {
                            assert(self.user_quests@[p] == pre.user_quests@[p]);
                        } else {
                            assert(self.user_quests@[p].quest_ids@
                                == pre.user_quests@[p].quest_ids@.push(quest_id));
                            if jj < pre.user_quests@[p].quest_ids@.len() {
                                assert(self.user_quests@[p].quest_ids@[jj]
                                    == pre.user_quests@[p].quest_ids@[jj]);
                            }
                        }
                    };
                }
            },
            None => {
                proof {
                    lemma_uq_absent(pre.user_quests@, user);
                }
                let mut ids: Vec<u64> = Vec::new();
                ids.push(quest_id);
                let entry = UserQuestsEntry { user, quest_ids: ids };
                proof {
                    lemma_uq_push(pre.user_quests@, entry);
                }
                self.user_quests.push(entry);
                proof {
                    assert(self.user_quests@ == pre.user_quests@.push(entry));
                    assert(uq_of(self.user_quests@, user) =~= uq_of(
                        pre.user_quests@,
                        user,
                    ).push(quest_id));
                    let n = pre.user_quests@.len() as int;
                    assert forall|p: int, q: int|
                        0 <= p < self.user_quests@.len() && 0 <= q < self.user_quests@.len() && p
                            != q implies (#[trigger] self.user_quests@[p]).user != (
                    #[trigger] self.user_quests@[q]).user by {
                        if p < n && q < n {
                            assert(self.user_quests@[p] == pre.user_quests@[p]);
                            assert(self.user_quests@[q] == pre.user_quests@[q]);
                        } else if p < n {
                            assert(self.user_quests@[p] == pre.user_quests@[p]);
                            assert(self.user_quests@[q] == entry);
                        } else {
                            assert(self.user_quests@[p] == entry);
                            assert(self.user_quests@[q] == pre.user_quests@[q]);
                        }
                    };
                    assert forall|p: int| 0 <= p < self.user_quests@.len() implies (
                    #[trigger] self.user_quests@[p]).quest_ids@.no_duplicates() by {
                        if p < n {
                            assert(self.user_quests@[p] == pre.user_quests@[p]);
                        } else {
                            assert(self.user_quests@[p] == entry);
                        }
                    };
                    assert forall|p: int, jj: int|
                        0 <= p < self.user_quests@.len() && 0 <= jj < (
                        #[trigger] self.user_quests@[p]).quest_ids@.len() implies (
                    #[trigger] self.user_quests@[p].quest_ids@[jj]) < self.quests@.len() by {
                        if p < n {
                            assert(self.user_quests@[p] == pre.user_quests@[p]);
                        } else {
                            assert(self.user_quests@[p] == entry);
                        }
                    };
                }
            },
        }
        proof {
            lemma_register_preserves_wf(pre, *self, quest_id, user);
        }
        Ok(())
    }

    /// Marks a registered user as having met the quest's condition, routing
    /// the mark according to the quest's distribution policy.
    pub fn mark_user_eligible(&mut self, caller: Address, quest_id: u64, user: Address) -> (r:
        Result<(), Error>)
        requires
            old(self).wf(),
        ensures
            final(self).wf(),
            match r {
                Ok(u) => {
                    &&& old(self).mark_decision(caller, quest_id, user) == Ok::<(), Error>(())
                    &&& mark_applied(*old(self), *final(self), quest_id, user)
                },
                Err(e) => {
                    &&& old(self).mark_decision(caller, quest_id, user) == Err::<(), Error>(e)
                    &&& *final(self) == *old(self)
                },
            },
    {
        if quest_id >= self.quests.len() as u64 {
            return Err(Error::QuestNotFound);
        }
        let qi = quest_id as usize;
        if caller != self.quests[qi].admin {
            return Err(Error::Unauthorized);
        }
        if !self.quests[qi].is_active {
            return Err(Error::QuestNotActive);
        }
        if !contains_address(&self.registered[qi], user) {
            return Err(Error::UserNotRegistered);
        }
        let ghost pre = *self;
        let ghost q = quest_id as int;
        match self.quests[qi].distribution {
            DistributionType::Fcfs => {
                let cap = self.quests[qi].max_winners;
                if self.winners[qi].len() < cap as usize {
                    if !contains_address(&self.winners[qi], user) {
                        self.winners[qi].push(user);
                        proof {
                            lemma_push_fresh(pre.winners@[q]@, user);
                            lemma_mark_wf(pre, *self, quest_id, user);
                        }
                    }
                }
            },
            DistributionType::Raffle => {
                if !contains_address(&self.participants[qi], user) {
                    self.participants[qi].push(user);
                    proof {
                        lemma_push_fresh(pre.participants@[q]@, user);
                        lemma_mark_wf(pre, *self, quest_id, user);
                    }
                }
            },
        }
        Ok(())
    }

    /// Resolves a quest once its close time has passed: runs the draw for a
    /// raffle quest, seeded with the resolution timestamp `now`, and closes
    /// the quest. Terminal: the winner set is never recomputed.
    pub fn resolve_quest(&mut self, caller: Address, quest_id: u64, now: u64) -> (r: Result<
        (),
        Error,
    >)
        requires
            old(self).wf(),
        ensures
            final(self).wf(),
            match r {
                Ok(u) => {
                    &&& old(self).resolve_decision(caller, quest_id, now) == Ok::<(), Error>(())
                    &&& resolve_applied(*old(self), *final(self), quest_id, now)
                },
                Err(e) => {
                    &&& old(self).resolve_decision(caller, quest_id, now) == Err::<(), Error>(e)
                    &&& *final(self) == *old(self)
                },
            },
    {
        if quest_id >= self.quests.len() as u64 {
            return Err(Error::QuestNotFound);
        }
        let qi = quest_id as usize;
        if caller != self.quests[qi].admin {
            return Err(Error::Unauthorized);
        }
        if now < self.quests[qi].end_timestamp {
            return Err(Error::QuestNotFinished);
        }
        if !self.quests[qi].is_active {
            return Err(Error::QuestAlreadyResolved);
        }
        let ghost pre = *self;
        let ghost q = quest_id as int;
        if self.quests[qi].distribution == DistributionType::Raffle {
            let drawn = run_raffle_draw(&self.participants[qi], now, self.quests[qi].max_winners);
            self.winners[qi] = drawn;
        }
        self.quests[qi].is_active = false;
        proof {
            lemma_close_quest_records(pre, *self, q);
            lemma_cross_unchanged(pre, *self);
            let post = *self;
            if pre.quest_at(quest_id).distribution is Raffle {
                lemma_raffle_draw_len(
                    pre.participants_at(quest_id),
                    now,
                    pre.quest_at(quest_id).max_winners as nat,
                );
                lemma_raffle_draw_distinct(
                    pre.participants_at(quest_id),
                    now,
                    pre.quest_at(quest_id).max_winners as nat,
                );
                lemma_raffle_draw_members(
                    pre.participants_at(quest_id),
                    now,
                    pre.quest_at(quest_id).max_winners as nat,
                );
            }
            assert forall|i: int| 0 <= i < post.quests@.len() implies (
            #[trigger] post.winners@[i])@.len() <= post.quests@[i].max_winners by {
                if i != q {
                    assert(post.winners@[i] == pre.winners@[i]);
                }
            };
            assert forall|i: int| 0 <= i < post.quests@.len() implies (
            #[trigger] post.winners@[i])@.no_duplicates() by {
                if i != q {
                    assert(post.winners@[i] == pre.winners@[i]);
                }
            };
            assert forall|i: int, x: Address|
                0 <= i < post.quests@.len() && (#[trigger] post.winners@[i]@.contains(x))
                implies post.registered@[i]@.contains(x) by {
                if i == q {
                    if pre.quest_at(quest_id).distribution is Raffle {
                        assert(pre.participants@[q]@.contains(x));
                    }
                    assert(pre.registered@[q]@.contains(x));
                } else {
                    assert(post.winners@[i] == pre.winners@[i]);
                }
            };
        }
        Ok(())
    }

    /// Computes the payout of a resolved quest — `reward_per_winner` of the
    /// reward token for each winner, to be executed by the surrounding
    /// runtime — and marks the pool as having left custody, so that a repeat
    /// call cannot pay anyone twice.
    pub fn distribute_rewards(&mut self, caller: Address, quest_id: u64) -> (r: Result<
        Vec<Payout>,
        Error,
    >)
        requires
            old(self).wf(),
        ensures
            final(self).wf(),
            match r {
                Ok(payouts) => {
                    &&& old(self).distribute_decision(caller, quest_id) == Ok::<(), Error>(())
                    &&& distribute_applied(*old(self), *final(self), quest_id)
                    &&& payouts@.len() == old(self).winners_at(quest_id).len()
                    &&& forall|i: int|
                        0 <= i < payouts@.len() ==> #[trigger] payouts@[i] == (Payout {
                            to: old(self).winners_at(quest_id)[i],
                            amount: old(self).quest_at(quest_id).reward_per_winner,
                        })
                },
                Err(e) => {
                    &&& old(self).distribute_decision(caller, quest_id) == Err::<(), Error>(e)
                    &&& *final(self) == *old(self)
                },
            },
    {
        if quest_id >= self.quests.len() as u64 {
            return Err(Error::QuestNotFound);
        }
        let qi = quest_id as usize;
        if caller != self.quests[qi].admin {
            return Err(Error::Unauthorized);
        }
        if self.quests[qi].is_active {
            return Err(Error::QuestNotResolved);
        }
        if self.settled[qi] {
            return Err(Error::RewardsAlreadyDistributed);
        }
        if self.winners[qi].len() == 0 {
            return Err(Error::NoWinners);
        }
        let ghost pre = *self;
        let ghost q = quest_id as int;
        let amount = self.quests[qi].reward_per_winner;
        let mut payouts: Vec<Payout> = Vec::new();
        let mut i: usize = 0;
        while i < self.winners[qi].len()
            invariant
                qi < self.winners@.len(),
                qi == quest_id as int,
                0 <= i <= self.winners@[qi as int]@.len(),
                payouts@.len() == i,
                forall|j: int|
                    0 <= j < i ==> #[trigger] payouts@[j] == (Payout {
                        to: self.winners@[qi as int]@[j],
                        amount: amount,
                    }),
            decreases self.winners@[qi as int]@.len() - i,
        {
            let to = self.winners[qi][i];
            payouts.push(Payout { to, amount });
            i += 1;
        }
        self.settled[qi] = true;
        proof {
            lemma_cross_unchanged(pre, *self);
            let post = *self;
            assert forall|i2: int|
                0 <= i2 < post.quests@.len() && (#[trigger] post.settled@[i2])
                implies !post.quests@[i2].is_active by {
                if i2 != q {
                    assert(post.settled@[i2] == pre.settled@[i2]);
                }
            };
        }
        Ok(payouts)
    }

    /// Cancels an active quest: closes it and returns the refund of the
    /// escrowed pool to the admin, to be executed by the surrounding
    /// runtime. The pool is marked as having left custody, so a later payout
    /// attempt is rejected.
    pub fn cancel_quest(&mut self, caller: Address, quest_id: u64) -> (r: Result<Payout, Error>)
        requires
            old(self).wf(),
        ensures
            final(self).wf(),
            match r {
                Ok(refund) => {
                    &&& old(self).cancel_decision(caller, quest_id) == Ok::<(), Error>(())
                    &&& cancel_applied(*old(self), *final(self), quest_id)
                    &&& refund == (Payout {
                        to: old(self).quest_at(quest_id).admin,
                        amount: old(self).quest_at(quest_id).total_reward_pool,
                    })
                },
                Err(e) => {
                    &&& old(self).cancel_decision(caller, quest_id) == Err::<(), Error>(e)
                    &&& *final(self) == *old(self)
                },
            },
    {
        if quest_id >= self.quests.len() as u64 {
            return Err(Error::QuestNotFound);
        }
        let qi = quest_id as usize;
        if caller != self.quests[qi].admin {
            return Err(Error::Unauthorized);
        }
        if !self.quests[qi].is_active {
            return Err(Error::QuestNotActive);
        }
        let ghost pre = *self;
        let ghost q = quest_id as int;
        let refund = Payout {
            to: self.quests[qi].admin,
            amount: self.quests[qi].total_reward_pool,
        };
        self.quests[qi].is_active = false;
        self.settled[qi] = true;
        proof {
            lemma_close_quest_records(pre, *self, q);
            lemma_cross_unchanged(pre, *self);
            let post = *self;
            assert forall|i: int| 0 <= i < post.quests@.len() implies (
            #[trigger] post.winners@[i])@.len() <= post.quests@[i].max_winners by {
                assert(post.quests@[i].max_winners == pre.quests@[i].max_winners);
            };
            assert forall|i: int|
                0 <= i < post.quests@.len() && (#[trigger] post.settled@[i])
                implies !post.quests@[i].is_active by {
                if i != q {
                    assert(post.settled@[i] == pre.settled@[i]);
                    assert(post.quests@[i] == pre.quests@[i]);
                }
            };
        }
        Ok(refund)
    }

    /// The record of a quest, or quest-not-found.
    pub fn get_quest(&self, quest_id: u64) -> (r: Result<Quest, Error>)
        ensures
            match r {
                Ok(q) => self.has_quest(quest_id) && q == self.quest_at(quest_id),
                Err(e) => !self.has_quest(quest_id) && e == Error::QuestNotFound,
            },
    {
        if quest_id >= self.quests.len() as u64 {
            return Err(Error::QuestNotFound);
        }
        Ok(clone_quest(&self.quests[quest_id as usize]))
    }

    /// Every quest of the global index that is still open and not yet past
    /// its close time, in index order.
    pub fn get_active_quests(&self, now: u64) -> (r: Vec<Quest>)
        requires
            self.wf(),
        ensures
            r@ == self.quest_ids@.map_values(|id: u64| self.quests@[id as int]).filter(
                |q: Quest| quest_live(q, now),
            ),
    {
        let mut r: Vec<Quest> = Vec::new();
        let mut i: usize = 0;
        // pins the record count to the machine range for the index casts below
        let _ = self.quests.len();
        let ghost f = |id: u64| self.quests@[id as int];
        let ghost p = |q: Quest| quest_live(q, now);
        while i < self.quest_ids.len()
            invariant
                self.wf(),
                0 <= i <= self.quest_ids@.len(),
                self.quests@.len() <= usize::MAX,
                r@ == self.quest_ids@.take(i as int).map_values(f).filter(p),
                f == (|id: u64| self.quests@[id as int]),
                p == (|q: Quest| quest_live(q, now)),
            decreases self.quest_ids@.len() - i,
        {
            let id = self.quest_ids[i];
            proof {
                assert(self.quest_ids@[i as int] < self.quests@.len());
            }
            let quest = &self.quests[id as usize];
            proof {
                reveal_with_fuel(Seq::<Quest>::filter, 2);
                let m = self.quest_ids@.take(i as int).map_values(f);
                let m2 = self.quest_ids@.take(i + 1 as int).map_values(f);
                assert(m2 =~= m.push(f(self.quest_ids@[i as int])));
                assert(m2.drop_last() =~= m);
                assert(m2.last() == f(self.quest_ids@[i as int]));
                assert(m2.filter(p) == if p(m2.last()) {
                    m.filter(p).push(m2.last())
                } else {
                    m.filter(p)
                });
            }
            if quest.is_active && now <= quest.end_timestamp {
                r.push(clone_quest(quest));
            }
            i += 1;
        }
        proof {
            assert(self.quest_ids@.take(self.quest_ids@.len() as int) =~= self.quest_ids@);
        }
        r
    }

    /// The participant pool of a quest; empty for an unknown quest.
    pub fn get_participants(&self, quest_id: u64) -> (r: Vec<Address>)
        requires
            self.wf(),
        ensures
            r@ == if self.has_quest(quest_id) {
                self.participants_at(quest_id)
            } else {
                Seq::<Address>::empty()
            },
    {
        if quest_id >= self.quests.len() as u64 {
            return Vec::new();
        }
        copy_addresses(&self.participants[quest_id as usize])
    }

    /// The winner set of a quest; empty for an unknown quest.
    pub fn get_winners(&self, quest_id: u64) -> (r: Vec<Address>)
        requires
            self.wf(),
        ensures
            r@ == if self.has_quest(quest_id) {
                self.winners_at(quest_id)
            } else {
                Seq::<Address>::empty()
            },
    {
        if quest_id >= self.quests.len() as u64 {
            return Vec::new();
        }
        copy_addresses(&self.winners[quest_id as usize])
    }

    /// Whether the registration fact for this quest and user exists.
    pub fn is_user_registered(&self, quest_id: u64, user: Address) -> (r: bool)
        requires
            self.wf(),
        ensures
            r == (self.has_quest(quest_id) && self.registered_at(quest_id).contains(user)),
    {
        if quest_id >= self.quests.len() as u64 {
            return false;
        }
        contains_address(&self.registered[quest_id as usize], user)
    }

    /// The quests this user registered for, in registration order.
    pub fn get_user_quests(&self, user: Address) -> (r: Vec<u64>)
        requires
            self.wf(),
        ensures
            r@ == self.user_quests_of(user),
    {
        match find_user_entry(&self.user_quests, user) {
            Some(j) => {
                proof {
                    lemma_uq_lookup(self.user_quests@, user, j as int);
                }
                copy_ids(&self.user_quests[j].quest_ids)
            },
            None => {
                proof {
                    lemma_uq_absent(self.user_quests@, user);
                }
                Vec::new()
            },
        }
    }

    /// How many quests have been created; also the id the next quest gets.
    pub fn get_quest_counter(&self) -> (r: u64)
        ensures
            r == self.quest_count(),
    {
        self.quests.len() as u64
    }

    /// The reporting view of one quest, or quest-not-found. The registered
    /// count is the true size of the registration set.
    pub fn get_quest_stats(&self, quest_id: u64, now: u64) -> (r: Result<QuestStats, Error>)
        requires
            self.wf(),
            self.has_quest(quest_id) ==> self.registered_at(quest_id).len() <= u32::MAX
                && self.participants_at(quest_id).len() <= u32::MAX,
        ensures
            match r {
                Ok(st) => {
                    &&& self.has_quest(quest_id)
                    &&& st.quest_id == quest_id
                    &&& st.total_registered == self.registered_at(quest_id).len()
                    &&& st.total_eligible == self.participants_at(quest_id).len()
                    &&& st.total_winners == self.winners_at(quest_id).len()
                    &&& st.is_resolved == !self.quest_at(quest_id).is_active
                    &&& st.time_remaining == if now < self.quest_at(quest_id).end_timestamp {
                        self.quest_at(quest_id).end_timestamp - now
                    } else {
                        0
                    }
                },
                Err(e) => !self.has_quest(quest_id) && e == Error::QuestNotFound,
            },
    {
        if quest_id >= self.quests.len() as u64 {
            return Err(Error::QuestNotFound);
        }
        let qi = quest_id as usize;
        let end = self.quests[qi].end_timestamp;
        Ok(
            QuestStats {
                quest_id,
                total_registered: self.registered[qi].len() as u32,
                total_eligible: self.participants[qi].len() as u32,
                total_winners: self.winners[qi].len() as u32,
                is_resolved: !self.quests[qi].is_active,
                time_remaining: if now < end {
                    end - now
                } else {
                    0
                },
            },
        )
    }
}

/// Whether a quest shows up as active: still open and not yet past its
/// close time.
pub open spec fn quest_live(q: Quest, now: u64) -> bool {
    q.is_active && now <= q.end_timestamp
}

/// Field-by-field copy of a stored quest record.
pub(crate) fn clone_quest(q: &Quest) -> (r: Quest)
    ensures
        r == *q,
{
    Quest {
        id: q.id,
        admin: q.admin,
        reward_token: q.reward_token,
        reward_per_winner: q.reward_per_winner,
        max_winners: q.max_winners,
        distribution: q.distribution,
        quest_type: q.quest_type,
        end_timestamp: q.end_timestamp,
        is_active: q.is_active,
        total_reward_pool: q.total_reward_pool,
        title: q.title.clone(),
        description: q.description.clone(),
    }
}

/// Copy of a stored user set.
pub(crate) fn copy_addresses(v: &Vec<Address>) -> (r: Vec<Address>)
    ensures
        r@ == v@,
{
    let mut r: Vec<Address> = Vec::new();
    let mut i: usize = 0;
    while i < v.len()
        invariant
            0 <= i <= v@.len(),
            r@ == v@.take(i as int),
        decreases v@.len() - i,
    {
        r.push(v[i]);
        proof {
            assert(v@.take(i + 1 as int) =~= v@.take(i as int).push(v@[i as int]));
        }
        i += 1;
    }
    proof {
        assert(v@.take(v@.len() as int) =~= v@);
    }
    r
}

/// Copy of a stored id sequence.
pub(crate) fn copy_ids(v: &Vec<u64>) -> (r: Vec<u64>)
    ensures
        r@ == v@,
{
    let mut r: Vec<u64> = Vec::new();
    let mut i: usize = 0;
    while i < v.len()
        invariant
            0 <= i <= v@.len(),
            r@ == v@.take(i as int),
        decreases v@.len() - i,
    {
        r.push(v[i]);
        proof {
            assert(v@.take(i + 1 as int) =~= v@.take(i as int).push(v@[i as int]));
        }
        i += 1;
    }
    proof {
        assert(v@.take(v@.len() as int) =~= v@);
    }
    r
}

/// Closing a quest (resolution or cancellation) keeps the quest records
/// well-formed: only the lifecycle flag of the closed quest changes.
pub(crate) proof fn lemma_close_quest_records(pre: QuestManager, post: QuestManager, q: int)
    requires
        pre.wf(),
        0 <= q < pre.quests@.len(),
        post.quests@.len() == pre.quests@.len(),
        post.quests@[q] == (Quest { is_active: false, ..pre.quests@[q] }),
        forall|i: int|
            0 <= i < pre.quests@.len() && i != q ==> #[trigger] post.quests@[i] == pre.quests@[i],
    ensures
        forall|i: int| 0 <= i < post.quests@.len() ==> (#[trigger] post.quests@[i]).id == i,
        forall|i: int| 0 <= i < post.quests@.len() ==> valid_terms(#[trigger] post.quests@[i]),
        forall|i: int|
            0 <= i < post.quests@.len() ==> (#[trigger] post.quests@[i]).max_winners
                == pre.quests@[i].max_winners,
{
    assert forall|i: int| 0 <= i < post.quests@.len() implies (#[trigger] post.quests@[i]).id
        == i && valid_terms(post.quests@[i]) && post.quests@[i].max_winners
        == pre.quests@[i].max_winners by {
        if i != q {
            assert(post.quests@[i] == pre.quests@[i]);
        }
        assert(pre.quests@[i].id == i);
        assert(valid_terms(pre.quests@[i]));
    };
}

/// Unchanged registration state keeps the two registration indexes in
/// agreement.
pub(crate) proof fn lemma_cross_unchanged(pre: QuestManager, post: QuestManager)
    requires
        post.registered@ == pre.registered@,
        post.user_quests@ == pre.user_quests@,
        post.quests@.len() == pre.quests@.len(),
        forall|qid: u64, x: Address|
            (qid as int) < pre.quests@.len() ==> ((
            #[trigger] pre.registered@[qid as int]@.contains(x)) <==> uq_of(
                pre.user_quests@,
                x,
            ).contains(qid)),
    ensures
        forall|qid: u64, x: Address|
            (qid as int) < post.quests@.len() ==> ((
            #[trigger] post.registered@[qid as int]@.contains(x)) <==> uq_of(
                post.user_quests@,
                x,
            ).contains(qid)),
{
    assert forall|qid: u64, x: Address| (qid as int) < post.quests@.len() implies ((
    #[trigger] post.registered@[qid as int]@.contains(x)) <==> uq_of(
        post.user_quests@,
        x,
    ).contains(qid)) by {
        assert(pre.registered@[qid as int]@.contains(x) <==> uq_of(
            pre.user_quests@,
            x,
        ).contains(qid));
    };
}

/// An eligibility mark that admits a winner or a participant preserves every
/// state invariant.
pub(crate) proof fn lemma_mark_wf(
    pre: QuestManager,
    post: QuestManager,
    quest_id: u64,
    user: Address,
)
    requires
        pre.wf(),
        pre.has_quest(quest_id),
        pre.registered_at(quest_id).contains(user),
        mark_applied(pre, post, quest_id, user),
    ensures
        post.wf(),
{
    let q = quest_id as int;
    lemma_push_fresh(pre.winners@[q]@, user);
    lemma_push_fresh(pre.participants@[q]@, user);
    lemma_cross_unchanged(pre, post);
    assert forall|i: int| 0 <= i < post.quests@.len() implies (#[trigger] post.winners@[i])@.len()
        <= post.quests@[i].max_winners by {
        if i != q {
            assert(post.winners@[i] == pre.winners@[i]);
        }
    };
    assert forall|i: int| 0 <= i < post.quests@.len() implies (
    #[trigger] post.winners@[i])@.no_duplicates() by {
        if i != q {
            assert(post.winners@[i] == pre.winners@[i]);
        }
    };
    assert forall|i: int| 0 <= i < post.quests@.len() implies (
    #[trigger] post.participants@[i])@.no_duplicates() by {
        if i != q {
            assert(post.participants@[i] == pre.participants@[i]);
        }
    };
    assert forall|i: int, x: Address|
        0 <= i < post.quests@.len() && (#[trigger] post.winners@[i]@.contains(x))
        implies post.registered@[i]@.contains(x) by {
        if i == q {
            if pre.winners@[q]@.contains(x) {
                assert(pre.registered@[q]@.contains(x));
            }
        } else {
            assert(post.winners@[i] == pre.winners@[i]);
        }
    };
    assert forall|i: int, x: Address|
        0 <= i < post.quests@.len() && (#[trigger] post.participants@[i]@.contains(x))
        implies post.registered@[i]@.contains(x) by {
        if i == q {
            if pre.participants@[q]@.contains(x) {
                assert(pre.registered@[q]@.contains(x));
            }
        } else {
            assert(post.participants@[i] == pre.participants@[i]);
        }
    };
}

/// Pushing a fresh element keeps a sequence duplicate-free and keeps every
/// other element's membership.
pub(crate) proof fn lemma_push_fresh(s: Seq<Address>, e: Address)
    ensures
        forall|x: Address| #[trigger] s.push(e).contains(x) <==> (s.contains(x) || x == e),
        (s.no_duplicates() && !s.contains(e)) ==> s.push(e).no_duplicates(),
{
    assert forall|x: Address| #[trigger] s.push(e).contains(x) implies (s.contains(x) || x
        == e) by {
        let j = choose|j: int| 0 <= j < s.push(e).len() && s.push(e)[j] == x;
        if j < s.len() {
            assert(s[j] == x);
        }
    };
    assert forall|x: Address| (s.contains(x) || x == e) implies #[trigger] s.push(e).contains(
        x,
    ) by {
        if x == e {
            assert(s.push(e)[s.len() as int] == x);
        } else {
            let j = choose|j: int| 0 <= j < s.len() && s[j] == x;
            assert(s.push(e)[j] == x);
        }
    };
    if s.no_duplicates() && !s.contains(e) {
        assert forall|p: int, q: int|
            0 <= p < s.push(e).len() && 0 <= q < s.push(e).len() && p != q implies s.push(e)[p]
            != s.push(e)[q] by {
            if p < s.len() && q < s.len() {
            } else if p < s.len() {
                assert(s.contains(s[p]));
            } else {
                assert(s.contains(s[q]));
            }
        };
    }
}

/// Registration preserves every state invariant, given that the per-user
/// index kept its structure (one entry per user, valid ids, no id twice).
pub(crate) proof fn lemma_register_preserves_wf(
    pre: QuestManager,
    post: QuestManager,
    quest_id: u64,
    user: Address,
)
    requires
        pre.wf(),
        pre.has_quest(quest_id),
        !pre.registered_at(quest_id).contains(user),
        register_applied(pre, post, quest_id, user),
        uq_keys_distinct(post.user_quests@),
        forall|p: int|
            0 <= p < post.user_quests@.len() ==> (
            #[trigger] post.user_quests@[p]).quest_ids@.no_duplicates(),
        forall|p: int, j: int|
            0 <= p < post.user_quests@.len() && 0 <= j < (
            #[trigger] post.user_quests@[p]).quest_ids@.len() ==> (
            #[trigger] post.user_quests@[p].quest_ids@[j]) < post.quests@.len(),
    ensures
        post.wf(),
{
    let q = quest_id as int;
    lemma_push_fresh(pre.registered@[q]@, user);
    // the quest index of `user` gains exactly this quest
    assert(!uq_of(pre.user_quests@, user).contains(quest_id));
    assert forall|qid: u64, x: Address| (qid as int) < post.quests@.len() implies ((
    #[trigger] post.registered@[qid as int]@.contains(x)) <==> uq_of(
        post.user_quests@,
        x,
    ).contains(qid)) by {
        let i = qid as int;
        if x == user {
            assert(post.user_quests_of(x) == pre.user_quests_of(x).push(quest_id));
            lemma_push_contains_u64(uq_of(pre.user_quests@, x), quest_id);
            if i == q {
                assert(post.registered@[q]@.contains(user));
                assert(uq_of(post.user_quests@, x).contains(quest_id));
            } else {
                assert(post.registered@[i] == pre.registered@[i]);
                assert(pre.registered@[i]@.contains(x) <==> uq_of(
                    pre.user_quests@,
                    x,
                ).contains(qid));
            }
        } else {
            assert(post.user_quests_of(x) == pre.user_quests_of(x));
            assert(pre.registered@[i]@.contains(x) <==> uq_of(pre.user_quests@, x).contains(qid));
            if i == q {
                assert(post.registered@[q]@.contains(x) <==> (pre.registered@[q]@.contains(x) || x
                    == user));
            } else {
                assert(post.registered@[i] == pre.registered@[i]);
            }
        }
    };
    // no duplicates in the grown registration set
    assert forall|i: int| 0 <= i < post.quests@.len() implies (
    #[trigger] post.registered@[i])@.no_duplicates() by {
        if i != q {
            assert(post.registered@[i] == pre.registered@[i]);
        }
    };
    // participant and winner sets still hold registered users only
    assert forall|i: int, x: Address|
        0 <= i < post.quests@.len() && (#[trigger] post.participants@[i]@.contains(x))
        implies post.registered@[i]@.contains(x) by {
        if i == q {
            assert(pre.registered@[q]@.contains(x));
        } else {
            assert(post.registered@[i] == pre.registered@[i]);
        }
    };
    assert forall|i: int, x: Address|
        0 <= i < post.quests@.len() && (#[trigger] post.winners@[i]@.contains(x))
        implies post.registered@[i]@.contains(x) by {
        if i == q {
            assert(pre.registered@[q]@.contains(x));
        } else {
            assert(post.registered@[i] == pre.registered@[i]);
        }
    };
}

/// Membership in a pushed id sequence.
pub(crate) proof fn lemma_push_contains_u64(s: Seq<u64>, e: u64)
    ensures
        forall|x: u64| #[trigger] s.push(e).contains(x) <==> (s.contains(x) || x == e),
        (s.no_duplicates() && !s.contains(e)) ==> s.push(e).no_duplicates(),
{
    if s.no_duplicates() && !s.contains(e) {
        assert forall|p: int, q: int|
            0 <= p < s.push(e).len() && 0 <= q < s.push(e).len() && p != q implies s.push(e)[p]
            != s.push(e)[q] by {
            if p < s.len() && q < s.len() {
            } else if p < s.len() {
                assert(s.contains(s[p]));
            } else {
                assert(s.contains(s[q]));
            }
        };
    }
    assert forall|x: u64| #[trigger] s.push(e).contains(x) implies (s.contains(x) || x == e) by {
        let j = choose|j: int| 0 <= j < s.push(e).len() && s.push(e)[j] == x;
        if j < s.len() {
            assert(s[j] == x);
        }
    };
    assert forall|x: u64| (s.contains(x) || x == e) implies #[trigger] s.push(e).contains(x) by {
        if x == e {
            assert(s.push(e)[s.len() as int] == x);
        } else {
            let j = choose|j: int| 0 <= j < s.len() && s[j] == x;
            assert(s.push(e)[j] == x);
        }
    };
}

} // verus!
