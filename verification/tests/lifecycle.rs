use quest_manager::Address;
use quest_manager::DistributionType;
use quest_manager::Error;
use quest_manager::QuestManager;
use quest_manager::QuestType;

fn new_quest(
    qm: &mut QuestManager,
    admin: Address,
    distribution: DistributionType,
    reward_per_winner: u128,
    max_winners: u32,
    pool: u128,
    now: u64,
) -> u64 {
    qm.create_quest(
        admin,
        admin,
        Address::new(900),
        reward_per_winner,
        max_winners,
        distribution,
        QuestType::TradeVolume(10000),
        3600,
        pool,
        "Test Quest".to_string(),
        "A test quest".to_string(),
        now,
        pool,
    )
    .unwrap()
}

#[test]
fn test_create_quest() {
    let mut qm = QuestManager::new();
    let admin = Address::new(1);
    let reward_token = Address::new(2);

    let quest_id = qm
        .create_quest(
            admin,
            admin,
            reward_token,
            1000u128,
            5u32,
            DistributionType::Raffle,
            QuestType::TradeVolume(10000u128),
            3600u64,
            5000u128,
            "Test Quest".to_string(),
            "A test quest for volume trading".to_string(),
            0,
            5000u128,
        )
        .unwrap();

    assert_eq!(quest_id, 0);

    let quest = qm.get_quest(quest_id).unwrap();
    assert_eq!(quest.admin, admin);
    assert_eq!(quest.reward_per_winner, 1000u128);
    assert_eq!(quest.max_winners, 5u32);
    assert_eq!(quest.is_active, true);
}

#[test]
fn test_user_registration() {
    let mut qm = QuestManager::new();
    let admin = Address::new(1);
    let user = Address::new(2);
    let reward_token = Address::new(3);

    let quest_id = qm
        .create_quest(
            admin,
            admin,
            reward_token,
            1000u128,
            5u32,
            DistributionType::Raffle,
            QuestType::TradeVolume(10000u128),
            3600u64,
            5000u128,
            "Test Quest".to_string(),
            "A test quest".to_string(),
            0,
            5000u128,
        )
        .unwrap();

    qm.register(user, quest_id, user, 0).unwrap();

    let is_registered = qm.is_user_registered(quest_id, user);
    assert_eq!(is_registered, true);

    let user_quests = qm.get_user_quests(user);
    assert_eq!(user_quests.len(), 1);
    assert_eq!(user_quests[0], quest_id);
}

#[test]
fn test_create_validation_errors() {
    let mut qm = QuestManager::new();
    let admin = Address::new(1);
    let token = Address::new(2);
    let title = || "T".to_string();
    let desc = || "D".to_string();

    // caller is not the admin
    let r = qm.create_quest(
        Address::new(7),
        admin,
        token,
        100,
        2,
        DistributionType::Fcfs,
        QuestType::PoolPosition(50),
        3600,
        200,
        title(),
        desc(),
        0,
        200,
    );
    assert_eq!(r, Err(Error::Unauthorized));

    let r = qm.create_quest(
        admin,
        admin,
        token,
        100,
        0,
        DistributionType::Fcfs,
        QuestType::PoolPosition(50),
        3600,
        200,
        title(),
        desc(),
        0,
        200,
    );
    assert_eq!(r, Err(Error::InvalidMaxWinners));

    let r = qm.create_quest(
        admin,
        admin,
        token,
        0,
        2,
        DistributionType::Fcfs,
        QuestType::PoolPosition(50),
        3600,
        200,
        title(),
        desc(),
        0,
        200,
    );
    assert_eq!(r, Err(Error::InvalidRewardAmount));

    // pool 199 cannot cover 2 winners at 100 each
    let r = qm.create_quest(
        admin,
        admin,
        token,
        100,
        2,
        DistributionType::Fcfs,
        QuestType::PoolPosition(50),
        3600,
        199,
        title(),
        desc(),
        0,
        500,
    );
    assert_eq!(r, Err(Error::InsufficientRewardPool));

    let r = qm.create_quest(
        admin,
        admin,
        token,
        100,
        2,
        DistributionType::Fcfs,
        QuestType::PoolPosition(50),
        0,
        200,
        title(),
        desc(),
        0,
        200,
    );
    assert_eq!(r, Err(Error::InvalidDuration));

    // the admin's balance does not cover the pool
    let r = qm.create_quest(
        admin,
        admin,
        token,
        100,
        2,
        DistributionType::Fcfs,
        QuestType::PoolPosition(50),
        3600,
        200,
        title(),
        desc(),
        0,
        199,
    );
    assert_eq!(r, Err(Error::InsufficientBalance));

    // nothing was created by the failed attempts
    assert_eq!(qm.get_quest_counter(), 0);
}

#[test]
fn test_register_errors() {
    let mut qm = QuestManager::new();
    let admin = Address::new(1);
    let user = Address::new(2);
    let id = new_quest(&mut qm, admin, DistributionType::Fcfs, 100, 2, 200, 1000);
    // end_timestamp is 1000 + 3600 = 4600

    assert_eq!(qm.register(admin, id, user, 2000), Err(Error::Unauthorized));
    assert_eq!(qm.register(user, 99, user, 2000), Err(Error::QuestNotFound));
    assert_eq!(qm.register(user, id, user, 4601), Err(Error::QuestExpired));
    // at the close time itself registration still succeeds
    assert_eq!(qm.register(user, id, user, 4600), Ok(()));
    assert_eq!(qm.register(user, id, user, 4600), Err(Error::AlreadyRegistered));

    qm.cancel_quest(admin, id).unwrap();
    let late = Address::new(3);
    assert_eq!(qm.register(late, id, late, 2000), Err(Error::QuestNotActive));
}

#[test]
fn test_resolve_gating() {
    let mut qm = QuestManager::new();
    let admin = Address::new(1);
    let id = new_quest(&mut qm, admin, DistributionType::Fcfs, 100, 2, 200, 1000);

    assert_eq!(qm.resolve_quest(Address::new(5), id, 9000), Err(Error::Unauthorized));
    assert_eq!(qm.resolve_quest(admin, id, 4599), Err(Error::QuestNotFinished));
    assert_eq!(qm.resolve_quest(admin, id, 4600), Ok(()));
    assert_eq!(qm.resolve_quest(admin, id, 4600), Err(Error::QuestAlreadyResolved));
    assert_eq!(qm.resolve_quest(admin, 42, 4600), Err(Error::QuestNotFound));
}

#[test]
fn test_cancel_refunds_pool() {
    let mut qm = QuestManager::new();
    let admin = Address::new(1);
    let id = new_quest(&mut qm, admin, DistributionType::Fcfs, 100, 2, 250, 1000);

    assert_eq!(qm.cancel_quest(Address::new(5), id), Err(Error::Unauthorized));
    let refund = qm.cancel_quest(admin, id).unwrap();
    assert_eq!(refund.to, admin);
    assert_eq!(refund.amount, 250);
    assert!(!qm.get_quest(id).unwrap().is_active);
    assert_eq!(qm.cancel_quest(admin, id), Err(Error::QuestNotActive));
    // the refunded pool can never be paid out on top
    assert_eq!(qm.distribute_rewards(admin, id), Err(Error::RewardsAlreadyDistributed));
}

#[test]
fn test_distribute_rewards_flow() {
    let mut qm = QuestManager::new();
    let admin = Address::new(1);
    let u1 = Address::new(11);
    let u2 = Address::new(12);
    let id = new_quest(&mut qm, admin, DistributionType::Fcfs, 100, 2, 200, 1000);
    qm.register(u1, id, u1, 1500).unwrap();
    qm.register(u2, id, u2, 1500).unwrap();
    qm.mark_user_eligible(admin, id, u1).unwrap();
    qm.mark_user_eligible(admin, id, u2).unwrap();

    assert_eq!(qm.distribute_rewards(admin, id), Err(Error::QuestNotResolved));
    qm.resolve_quest(admin, id, 4600).unwrap();
    assert_eq!(qm.distribute_rewards(Address::new(5), id), Err(Error::Unauthorized));

    let payouts = qm.distribute_rewards(admin, id).unwrap();
    assert_eq!(payouts.len(), 2);
    assert_eq!(payouts[0].to, u1);
    assert_eq!(payouts[0].amount, 100);
    assert_eq!(payouts[1].to, u2);
    assert_eq!(payouts[1].amount, 100);

    // a repeat call cannot pay the winners twice
    assert_eq!(qm.distribute_rewards(admin, id), Err(Error::RewardsAlreadyDistributed));
}

#[test]
fn test_distribute_no_winners() {
    let mut qm = QuestManager::new();
    let admin = Address::new(1);
    let id = new_quest(&mut qm, admin, DistributionType::Raffle, 100, 2, 200, 1000);
    qm.resolve_quest(admin, id, 4600).unwrap();
    assert_eq!(qm.distribute_rewards(admin, id), Err(Error::NoWinners));
}
