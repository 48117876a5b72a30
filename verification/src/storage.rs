//! Index maintenance helpers and the per-user reporting aggregator.

use vstd::prelude::*;
use crate::errors::Error;
use crate::manager::contains_address;
use crate::manager::copy_ids;
use crate::manager::lemma_push_contains_u64;
use crate::manager::lemma_uq_entry_exists;
use crate::manager::quest_live;
use crate::manager::uq_of;
use crate::manager::QuestManager;
use crate::types::Address;
use crate::types::Quest;
use crate::types::UserStats;

verus! {

/// How many of the quests in `ids` the user won: those whose winner set
/// holds the user.
pub open spec fn count_won(s: QuestManager, ids: Seq<u64>, user: Address) -> int
    decreases ids.len(),
{
    if ids.len() == 0 {
        0
    } else {
        (if s.winners@[ids[0] as int]@.contains(user) {
            1int
        } else {
            0int
        }) + count_won(s, ids.drop_first(), user)
    }
}

/// The rewards the user earned over the quests in `ids`: the sum of
/// `reward_per_winner` over the won ones.
pub open spec fn sum_rewards(s: QuestManager, ids: Seq<u64>, user: Address) -> int
    decreases ids.len(),
{
    if ids.len() == 0 {
        0
    } else {
        (if s.winners@[ids[0] as int]@.contains(user) {
            s.quests@[ids[0] as int].reward_per_winner as int
        } else {
            0int
        }) + sum_rewards(s, ids.drop_first(), user)
    }
}

/// Win rate in basis points: `won * 10000 / participated`, zero for a user
/// who participated in nothing.
pub open spec fn win_rate_of(won: int, participated: int) -> int {
    if participated > 0 {
        won * 10000 / participated
    } else {
        0
    }
}

pub(crate) proof fn lemma_stats_bounds(s: QuestManager, ids: Seq<u64>, user: Address)
    ensures
        0 <= count_won(s, ids, user) <= ids.len(),
        0 <= sum_rewards(s, ids, user),
    decreases ids.len(),
{
    if ids.len() == 0 {
    } else {
        lemma_stats_bounds(s, ids.drop_first(), user);
    }
}

/// Every id in a user's quest index denotes an existing quest.
pub(crate) proof fn lemma_uq_ids_valid(s: QuestManager, user: Address)
    requires
        s.wf(),
    ensures
        forall|k: int|
            0 <= k < s.user_quests_of(user).len() ==> (#[trigger] s.user_quests_of(user)[k])
                < s.quests@.len(),
{
    if s.user_quests_of(user).len() > 0 {
        lemma_uq_entry_exists(s.user_quests@, user);
        let p = choose|p: int|
            0 <= p < s.user_quests@.len() && (#[trigger] s.user_quests@[p]).user == user
                && s.user_quests@[p].quest_ids@ == uq_of(s.user_quests@, user);
        assert forall|k: int| 0 <= k < s.user_quests_of(user).len() implies (
        #[trigger] s.user_quests_of(user)[k]) < s.quests@.len() by {
            assert(s.user_quests@[p].quest_ids@[k] == s.user_quests_of(user)[k]);
        };
    }
}

/// Utility views over the stored indexes, kept apart from the lifecycle
/// operations.
pub struct StorageHelper;

impl StorageHelper {
    /// The global quest-id index, in insertion order.
    pub fn get_all_quest_ids(qm: &QuestManager) -> (r: Vec<u64>)
        ensures
            r@ == qm.quest_ids@,
    {
        copy_ids(&qm.quest_ids)
    }

    /// Appends a quest id to the global index. The id must denote an
    /// existing quest and not be indexed already.
    pub fn add_quest_id(qm: &mut QuestManager, quest_id: u64)
        requires
            old(qm).wf(),
            old(qm).has_quest(quest_id),
            !old(qm).quest_ids@.contains(quest_id),
        ensures
            final(qm).wf(),
            final(qm).quest_ids@ == old(qm).quest_ids@.push(quest_id),
            final(qm).quests@ == old(qm).quests@,
            final(qm).registered@ == old(qm).registered@,
            final(qm).participants@ == old(qm).participants@,
            final(qm).winners@ == old(qm).winners@,
            final(qm).settled@ == old(qm).settled@,
            final(qm).user_quests@ == old(qm).user_quests@,
    {
        proof {
            lemma_push_contains_u64(qm.quest_ids@, quest_id);
        }
        qm.quest_ids.push(quest_id);
        proof {
            assert forall|i: int| 0 <= i < qm.quest_ids@.len() implies (
            #[trigger] qm.quest_ids@[i]) < qm.quests@.len() by {
                if i < old(qm).quest_ids@.len() {
                    assert(qm.quest_ids@[i] == old(qm).quest_ids@[i]);
                }
            };
        }
    }

    /// Removes a quest id from the global index, if present. Documented for
    /// completeness: normal operation never removes an id.
    pub fn remove_quest_id(qm: &mut QuestManager, quest_id: u64)
        requires
            old(qm).wf(),
        ensures
            final(qm).wf(),
            !final(qm).quest_ids@.contains(quest_id),
            if old(qm).quest_ids@.contains(quest_id) {
                final(qm).quest_ids@ == old(qm).quest_ids@.remove(
                    old(qm).quest_ids@.index_of(quest_id),
                )
            } else {
                final(qm).quest_ids@ == old(qm).quest_ids@
            },
            final(qm).quests@ == old(qm).quests@,
            final(qm).registered@ == old(qm).registered@,
            final(qm).participants@ == old(qm).participants@,
            final(qm).winners@ == old(qm).winners@,
            final(qm).settled@ == old(qm).settled@,
            final(qm).user_quests@ == old(qm).user_quests@,
    {
        let mut i: usize = 0;
        while i < qm.quest_ids.len()
            invariant
                *qm == *old(qm),
                old(qm).wf(),
                0 <= i <= qm.quest_ids@.len(),
                forall|j: int| 0 <= j < i ==> qm.quest_ids@[j] != quest_id,
            decreases qm.quest_ids@.len() - i,
        {
            if qm.quest_ids[i] == quest_id {
                let ghost pre_ids = qm.quest_ids@;
                qm.quest_ids.remove(i);
                proof {
                    pre_ids.remove_ensures(i as int);
                    assert(pre_ids.contains(quest_id)) by {
                        assert(pre_ids[i as int] == quest_id);
                    };
                    let ix = pre_ids.index_of(quest_id);
                    assert(pre_ids[ix] == quest_id);
                    assert(ix == i as int);
                    assert forall|p: int, q: int|
                        0 <= p < qm.quest_ids@.len() && 0 <= q < qm.quest_ids@.len() && p != q
                        implies qm.quest_ids@[p] != qm.quest_ids@[q] by {
                        let p0: int = if p < i as int {
                            p
                        } else {
                            p + 1
                        };
                        let q0: int = if q < i as int {
                            q
                        } else {
                            q + 1
                        };
                        assert(qm.quest_ids@[p] == pre_ids[p0]);
                        assert(qm.quest_ids@[q] == pre_ids[q0]);
                    };
                    assert forall|k: int| 0 <= k < qm.quest_ids@.len() implies (
                    #[trigger] qm.quest_ids@[k]) < qm.quests@.len() by {
                        if k < i as int {
                            assert(qm.quest_ids@[k] == pre_ids[k]);
                        } else {
                            assert(qm.quest_ids@[k] == pre_ids[k + 1]);
                        }
                    };
                    assert(!qm.quest_ids@.contains(quest_id)) by {
                        if qm.quest_ids@.contains(quest_id) {
                            let k = choose|k: int|
                                0 <= k < qm.quest_ids@.len() && qm.quest_ids@[k] == quest_id;
                            if k < i as int {
                                assert(pre_ids[k] == quest_id);
                            } else {
                                assert(pre_ids[k + 1] == quest_id);
                            }
                        }
                    };
                }
                return ;
            }
            i += 1;
        }
        proof {
            if qm.quest_ids@.contains(quest_id) {
                let k = choose|k: int|
                    0 <= k < qm.quest_ids@.len() && qm.quest_ids@[k] == quest_id;
            }
        }
    }

    /// The quests of the global index in a given lifecycle state: the live
    /// ones (`active_only`), or the closed or expired ones.
    pub fn get_quests_by_status(qm: &QuestManager, active_only: bool, now: u64) -> (r: Vec<Quest>)
        requires
            qm.wf(),
        ensures
            r@ == qm.quest_ids@.map_values(|id: u64| qm.quests@[id as int]).filter(
                |q: Quest| quest_live(q, now) == active_only,
            ),
    {
        let mut r: Vec<Quest> = Vec::new();
        let mut i: usize = 0;
        // pins the record count to the machine range for the index casts below
        let _ = qm.quests.len();
        let ghost f = |id: u64| qm.quests@[id as int];
        let ghost p = |q: Quest| quest_live(q, now) == active_only;
        while i < qm.quest_ids.len()
            invariant
                qm.wf(),
                0 <= i <= qm.quest_ids@.len(),
                qm.quests@.len() <= usize::MAX,
                r@ == qm.quest_ids@.take(i as int).map_values(f).filter(p),
                f == (|id: u64| qm.quests@[id as int]),
                p == (|q: Quest| quest_live(q, now) == active_only),
            decreases qm.quest_ids@.len() - i,
        {
            let id = qm.quest_ids[i];
            proof {
                assert(qm.quest_ids@[i as int] < qm.quests@.len());
            }
            let quest = &qm.quests[id as usize];
            proof {
                reveal_with_fuel(Seq::<Quest>::filter, 2);
                let m = qm.quest_ids@.take(i as int).map_values(f);
                let m2 = qm.quest_ids@.take(i + 1 as int).map_values(f);
                assert(m2 =~= m.push(f(qm.quest_ids@[i as int])));
                assert(m2.drop_last() =~= m);
                assert(m2.last() == f(qm.quest_ids@[i as int]));
                assert(m2.filter(p) == if p(m2.last()) {
                    m.filter(p).push(m2.last())
                } else {
                    m.filter(p)
                });
            }
            let live = quest.is_active && now <= quest.end_timestamp;
            if live == active_only {
                r.push(crate::manager::clone_quest(quest));
            }
            i += 1;
        }
        proof {
            assert(qm.quest_ids@.take(qm.quest_ids@.len() as int) =~= qm.quest_ids@);
        }
        r
    }

    /// Whether a user is eligible to be marked for a quest: the registration
    /// fact must exist. Further policy hooks would go here.
    pub fn is_user_eligible(qm: &QuestManager, user: Address, quest_id: u64) -> (r: bool)
        requires
            qm.wf(),
        ensures
            r == (qm.has_quest(quest_id) && qm.registered_at(quest_id).contains(user)),
    {
        if quest_id >= qm.quests.len() as u64 {
            return false;
        }
        contains_address(&qm.registered[quest_id as usize], user)
    }

    /// The participation report of one user: quests entered, quests won, the
    /// rewards earned, and the win rate in basis points.
    pub fn get_user_participation_stats(qm: &QuestManager, user: Address) -> (st: UserStats)
        requires
            qm.wf(),
            qm.user_quests_of(user).len() <= u32::MAX,
            sum_rewards(*qm, qm.user_quests_of(user), user) <= u128::MAX,
        ensures
            st.total_participated == qm.user_quests_of(user).len(),
            st.total_won == count_won(*qm, qm.user_quests_of(user), user),
            st.total_rewards == sum_rewards(*qm, qm.user_quests_of(user), user),
            st.win_rate == win_rate_of(
                count_won(*qm, qm.user_quests_of(user), user),
                qm.user_quests_of(user).len() as int,
            ),
    {
        let ids = qm.get_user_quests(user);
        let ghost all: Seq<u64> = ids@;
        proof {
            lemma_uq_ids_valid(*qm, user);
            lemma_stats_bounds(*qm, all, user);
            assert(all.skip(0) =~= all);
        }
        let mut won: u32 = 0;
        let mut rewards: u128 = 0;
        let mut j: usize = 0;
        // pins the record count to the machine range for the index casts below
        let _ = qm.quests.len();
        while j < ids.len()
            invariant
                qm.wf(),
                ids@ == all,
                all == qm.user_quests_of(user),
                0 <= j <= all.len(),
                all.len() <= u32::MAX,
                qm.quests@.len() <= usize::MAX,
                forall|k: int| 0 <= k < all.len() ==> (#[trigger] all[k]) < qm.quests@.len(),
                won <= j,
                count_won(*qm, all, user) == won + count_won(*qm, all.skip(j as int), user),
                sum_rewards(*qm, all, user) == rewards + sum_rewards(
                    *qm,
                    all.skip(j as int),
                    user,
                ),
                sum_rewards(*qm, all, user) <= u128::MAX,
            decreases all.len() - j,
        {
            let id = ids[j];
            proof {
                let rest = all.skip(j as int);
                assert(rest[0] == all[j as int]);
                assert(rest.drop_first() =~= all.skip(j as int + 1));
                lemma_stats_bounds(*qm, all.skip(j as int + 1), user);
                assert(count_won(*qm, rest, user) == (if qm.winners@[rest[0] as int]@.contains(
                    user,
                ) {
                    1int
                } else {
                    0int
                }) + count_won(*qm, rest.drop_first(), user));
                assert(sum_rewards(*qm, rest, user) == (if qm.winners@[rest[0] as int]@.contains(
                    user,
                ) {
                    qm.quests@[rest[0] as int].reward_per_winner as int
                } else {
                    0int
                }) + sum_rewards(*qm, rest.drop_first(), user));
            }
            if contains_address(&qm.winners[id as usize], user) {
                won = won + 1;
                rewards = rewards + qm.quests[id as usize].reward_per_winner;
            }
            j += 1;
        }
        proof {
            assert(all.skip(all.len() as int) =~= Seq::<u64>::empty());
        }
        let total_participated = ids.len() as u32;
        let win_rate: u128 = if total_participated > 0 {
            (won as u128) * 10000 / (total_participated as u128)
        } else {
            0
        };
        UserStats { total_participated, total_won: won, total_rewards: rewards, win_rate }
    }
}

impl QuestManager {
    /// The participation report of one user.
    pub fn get_user_stats(&self, user: Address) -> (st: UserStats)
        requires
            self.wf(),
            self.user_quests_of(user).len() <= u32::MAX,
            sum_rewards(*self, self.user_quests_of(user), user) <= u128::MAX,
        ensures
            st.total_participated == self.user_quests_of(user).len(),
            st.total_won == count_won(*self, self.user_quests_of(user), user),
            st.total_rewards == sum_rewards(*self, self.user_quests_of(user), user),
            st.win_rate == win_rate_of(
                count_won(*self, self.user_quests_of(user), user),
                self.user_quests_of(user).len() as int,
            ),
    {
        StorageHelper::get_user_participation_stats(self, user)
    }
}

} // verus!
