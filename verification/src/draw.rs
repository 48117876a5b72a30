//! Winner selection engine: the end-of-campaign randomized draw.
//!
//! The draw removes `k` participants one by one from a working copy of the
//! participant list, picking index `seed mod remaining` each time and then
//! advancing the seed with a fixed linear-congruential update. Removing the
//! drawn participant guarantees that nobody is drawn twice. The only entropy
//! source is the seed handed in by the caller (the resolution timestamp), so
//! the draw is deterministic: [`raffle_draw`] is its exact specification.

use vstd::prelude::*;
use crate::types::Address;

verus! {

/// One step of the linear-congruential seed update used by the draw:
/// multiply by 1103515245 and add 12345, both wrapping on 64 bits, then
/// discard the low 16 bits.
pub open spec fn lcg_next(seed: u64) -> u64 {
    (vstd::wrapping::u64_specs::wrapping_add(
        vstd::wrapping::u64_specs::wrapping_mul(seed, 1103515245),
        12345,
    ) / 65536) as u64
}

fn lcg_step(seed: u64) -> (r: u64)
    ensures
        r == lcg_next(seed),
{
    seed.wrapping_mul(1103515245).wrapping_add(12345) / 65536
}

/// The winners drawn from `avail` with the given seed: up to `k` times, take
/// the element at position `seed mod remaining`, remove it from the pool,
/// advance the seed.
pub open spec fn raffle_draw(avail: Seq<Address>, seed: u64, k: nat) -> Seq<Address>
    decreases k,
{
    if k == 0 || avail.len() == 0 {
        Seq::empty()
    } else {
        let i = seed as int % avail.len() as int;
        seq![avail[i]] + raffle_draw(avail.remove(i), lcg_next(seed), (k - 1) as nat)
    }
}

/// The draw yields exactly as many winners as the capacity allows: `k`
/// winners, or every participant when fewer than `k` are in the pool.
pub proof fn lemma_raffle_draw_len(avail: Seq<Address>, seed: u64, k: nat)
    ensures
        raffle_draw(avail, seed, k).len() == vstd::math::min(k as int, avail.len() as int),
    decreases k,
{
    if k == 0 || avail.len() == 0 {
    } else {
        let i = seed as int % avail.len() as int;
        avail.remove_ensures(i);
        lemma_raffle_draw_len(avail.remove(i), lcg_next(seed), (k - 1) as nat);
    }
}

/// Every winner the draw yields comes from the participant pool.
pub proof fn lemma_raffle_draw_members(avail: Seq<Address>, seed: u64, k: nat)
    ensures
        forall|x: Address| #[trigger] raffle_draw(avail, seed, k).contains(x) ==> avail.contains(x),
    decreases k,
{
    if k == 0 || avail.len() == 0 {
    } else {
        let i = seed as int % avail.len() as int;
        let rest = avail.remove(i);
        avail.remove_ensures(i);
        lemma_raffle_draw_members(rest, lcg_next(seed), (k - 1) as nat);
        assert forall|x: Address| #[trigger] raffle_draw(avail, seed, k).contains(x)
            implies avail.contains(x) by {
            let drawn = raffle_draw(avail, seed, k);
            let j = choose|j: int| 0 <= j < drawn.len() && drawn[j] == x;
            if j == 0 {
                assert(avail[i] == x);
            } else {
                let tail = raffle_draw(rest, lcg_next(seed), (k - 1) as nat);
                assert(tail[j - 1] == x);
                assert(tail.contains(x));
                assert(rest.contains(x));
                let m = choose|m: int| 0 <= m < rest.len() && rest[m] == x;
                if m < i {
                    assert(avail[m] == x);
                } else {
                    assert(avail[m + 1] == x);
                }
            }
        };
    }
}

/// When the pool has no duplicate entries, neither has the list of winners:
/// nobody is drawn twice.
pub proof fn lemma_raffle_draw_distinct(avail: Seq<Address>, seed: u64, k: nat)
    requires
        avail.no_duplicates(),
    ensures
        raffle_draw(avail, seed, k).no_duplicates(),
    decreases k,
{
    if k == 0 || avail.len() == 0 {
    } else {
        let i = seed as int % avail.len() as int;
        let rest = avail.remove(i);
        avail.remove_ensures(i);
        assert(rest.no_duplicates());
        lemma_raffle_draw_distinct(rest, lcg_next(seed), (k - 1) as nat);
        lemma_raffle_draw_members(rest, lcg_next(seed), (k - 1) as nat);
        let tail = raffle_draw(rest, lcg_next(seed), (k - 1) as nat);
        assert(!rest.contains(avail[i])) by {
            if rest.contains(avail[i]) {
                let m = choose|m: int| 0 <= m < rest.len() && rest[m] == avail[i];
                if m < i {
                    assert(avail[m] == avail[i]);
                } else {
                    assert(avail[m + 1] == avail[i]);
                }
            }
        };
        let drawn = raffle_draw(avail, seed, k);
        assert forall|p: int, q: int|
            0 <= p < drawn.len() && 0 <= q < drawn.len() && p != q
            implies drawn[p] != drawn[q] by {
            if p == 0 {
                assert(tail.contains(drawn[q])) by {
                    assert(tail[q - 1] == drawn[q]);
                };
            } else if q == 0 {
                assert(tail.contains(drawn[p])) by {
                    assert(tail[p - 1] == drawn[p]);
                };
            } else {
                assert(tail[p - 1] != tail[q - 1]);
            }
        };
    }
}

/// Runs the draw over a copy of the participant list.
pub fn run_raffle_draw(participants: &Vec<Address>, seed: u64, max_winners: u32) -> (winners: Vec<
    Address,
>)
    ensures
        winners@ == raffle_draw(participants@, seed, max_winners as nat),
{
    let mut avail: Vec<Address> = Vec::new();
    let mut i: usize = 0;
    while i < participants.len()
        invariant
            0 <= i <= participants@.len(),
            avail@ == participants@.take(i as int),
        decreases participants@.len() - i,
    {
        avail.push(participants[i]);
        proof {
            assert(participants@.take(i + 1 as int) =~= participants@.take(i as int).push(
                participants@[i as int],
            ));
        }
        i += 1;
    }
    proof {
        assert(avail@ =~= participants@);
    }

    let mut winners: Vec<Address> = Vec::new();
    let mut cur_seed: u64 = seed;
    let ghost full: Seq<Address> = raffle_draw(participants@, seed, max_winners as nat);
    while winners.len() < max_winners as usize && avail.len() > 0
        invariant
            winners@.len() <= max_winners as nat,
            full == winners@ + raffle_draw(
                avail@,
                cur_seed,
                (max_winners as nat - winners@.len()) as nat,
            ),
        decreases avail@.len(),
    {
        let idx: usize = (cur_seed % (avail.len() as u64)) as usize;
        let ghost remaining: nat = (max_winners as nat - winners@.len()) as nat;
        proof {
            assert(raffle_draw(avail@, cur_seed, remaining) == seq![avail@[idx as int]]
                + raffle_draw(
                avail@.remove(idx as int),
                lcg_next(cur_seed),
                (remaining - 1) as nat,
            ));
        }
        let picked = avail[idx];
        winners.push(picked);
        avail.remove(idx);
        cur_seed = lcg_step(cur_seed);
        proof {
            assert(full =~= winners@ + raffle_draw(
                avail@,
                cur_seed,
                (max_winners as nat - winners@.len()) as nat,
            ));
        }
    }
    proof {
        assert(raffle_draw(avail@, cur_seed, (max_winners as nat - winners@.len()) as nat)
            =~= Seq::<Address>::empty());
        assert(winners@ =~= full);
    }
    winners
}

} // verus!
