use quest_manager::Address;
use quest_manager::DistributionType;
use quest_manager::Error;
use quest_manager::QuestManager;
use quest_manager::QuestType;

fn quest_with(
    qm: &mut QuestManager,
    admin: Address,
    distribution: DistributionType,
    reward_per_winner: u128,
    max_winners: u32,
    pool: u128,
    now: u64,
) -> u64 {
    qm.create_quest(
        admin,
        admin,
        Address::new(900),
        reward_per_winner,
        max_winners,
        distribution,
        QuestType::TokenHold(Address::new(901), 5),
        3600,
        pool,
        "Selection".to_string(),
        "Winner selection".to_string(),
        now,
        pool,
    )
    .unwrap()
}

#[test]
fn test_fcfs_admits_first_two_of_three() {
    // capacity 2, reward 100, pool 200, duration 3600: of three eligible
    // users the first two are admitted and the third is ignored
    let mut qm = QuestManager::new();
    let admin = Address::new(1);
    let users = [Address::new(11), Address::new(12), Address::new(13)];
    let id = quest_with(&mut qm, admin, DistributionType::Fcfs, 100, 2, 200, 0);
    for u in users {
        qm.register(u, id, u, 100).unwrap();
    }
    for u in users {
        qm.mark_user_eligible(admin, id, u).unwrap();
    }
    let winners = qm.get_winners(id);
    assert_eq!(winners, vec![users[0], users[1]]);
}

#[test]
fn test_fcfs_mark_is_idempotent() {
    let mut qm = QuestManager::new();
    let admin = Address::new(1);
    let u = Address::new(11);
    let id = quest_with(&mut qm, admin, DistributionType::Fcfs, 100, 3, 300, 0);
    qm.register(u, id, u, 100).unwrap();
    qm.mark_user_eligible(admin, id, u).unwrap();
    qm.mark_user_eligible(admin, id, u).unwrap();
    assert_eq!(qm.get_winners(id), vec![u]);
}

#[test]
fn test_mark_errors() {
    let mut qm = QuestManager::new();
    let admin = Address::new(1);
    let u = Address::new(11);
    let id = quest_with(&mut qm, admin, DistributionType::Fcfs, 100, 2, 200, 0);
    assert_eq!(qm.mark_user_eligible(admin, 9, u), Err(Error::QuestNotFound));
    assert_eq!(qm.mark_user_eligible(u, id, u), Err(Error::Unauthorized));
    assert_eq!(qm.mark_user_eligible(admin, id, u), Err(Error::UserNotRegistered));
    qm.register(u, id, u, 100).unwrap();
    qm.cancel_quest(admin, id).unwrap();
    assert_eq!(qm.mark_user_eligible(admin, id, u), Err(Error::QuestNotActive));
}

#[test]
fn test_raffle_draw_of_one_from_five() {
    // capacity 1, five eligible participants, resolution after the close
    // time: exactly one winner, drawn from the participants
    let mut qm = QuestManager::new();
    let admin = Address::new(1);
    let users = [
        Address::new(11),
        Address::new(12),
        Address::new(13),
        Address::new(14),
        Address::new(15),
    ];
    let id = quest_with(&mut qm, admin, DistributionType::Raffle, 100, 1, 100, 0);
    for u in users {
        qm.register(u, id, u, 100).unwrap();
        qm.mark_user_eligible(admin, id, u).unwrap();
    }
    assert_eq!(qm.get_participants(id).len(), 5);
    assert_eq!(qm.get_winners(id).len(), 0);

    qm.resolve_quest(admin, id, 7200).unwrap();
    let winners = qm.get_winners(id);
    assert_eq!(winners.len(), 1);
    assert!(users.contains(&winners[0]));
    // the draw is deterministic in the resolution timestamp:
    // the first index is 7200 mod 5 = 0
    assert_eq!(winners[0], users[0]);
}

#[test]
fn test_raffle_draw_sequence_is_deterministic() {
    // seed 7200 over five participants: first pick at index 7200 mod 5 = 0;
    // the seed becomes (7200 * 1103515245 + 12345) / 65536 = 121235805, and
    // the second pick is at index 121235805 mod 4 = 1 of the remainder
    let mut qm = QuestManager::new();
    let admin = Address::new(1);
    let users = [
        Address::new(11),
        Address::new(12),
        Address::new(13),
        Address::new(14),
        Address::new(15),
    ];
    let id = quest_with(&mut qm, admin, DistributionType::Raffle, 100, 2, 200, 0);
    for u in users {
        qm.register(u, id, u, 100).unwrap();
        qm.mark_user_eligible(admin, id, u).unwrap();
    }
    qm.resolve_quest(admin, id, 7200).unwrap();
    assert_eq!(qm.get_winners(id), vec![users[0], users[2]]);
}

#[test]
fn test_raffle_capacity_beyond_participants() {
    // more capacity than participants: everyone wins, nobody twice
    let mut qm = QuestManager::new();
    let admin = Address::new(1);
    let u1 = Address::new(11);
    let u2 = Address::new(12);
    let id = quest_with(&mut qm, admin, DistributionType::Raffle, 100, 5, 500, 0);
    for u in [u1, u2] {
        qm.register(u, id, u, 100).unwrap();
        qm.mark_user_eligible(admin, id, u).unwrap();
    }
    qm.resolve_quest(admin, id, 7200).unwrap();
    let mut winners = qm.get_winners(id);
    assert_eq!(winners.len(), 2);
    winners.sort_by_key(|a| a.id);
    assert_eq!(winners, vec![u1, u2]);
}

#[test]
fn test_fcfs_winners_survive_resolution() {
    let mut qm = QuestManager::new();
    let admin = Address::new(1);
    let u = Address::new(11);
    let id = quest_with(&mut qm, admin, DistributionType::Fcfs, 100, 2, 200, 0);
    qm.register(u, id, u, 100).unwrap();
    qm.mark_user_eligible(admin, id, u).unwrap();
    qm.resolve_quest(admin, id, 3600).unwrap();
    assert_eq!(qm.get_winners(id), vec![u]);
}
