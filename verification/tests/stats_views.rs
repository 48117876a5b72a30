use quest_manager::Address;
use quest_manager::DistributionType;
use quest_manager::Error;
use quest_manager::QuestManager;
use quest_manager::QuestType;
use quest_manager::StorageHelper;

fn plain_quest(qm: &mut QuestManager, admin: Address, now: u64) -> u64 {
    qm.create_quest(
        admin,
        admin,
        Address::new(900),
        100,
        1,
        DistributionType::Fcfs,
        QuestType::TradeVolume(10000),
        3600,
        100,
        "Stats".to_string(),
        "Reporting".to_string(),
        now,
        100,
    )
    .unwrap()
}

#[test]
fn test_win_rate_basis_points() {
    // a user in four quests who won one has a win rate of 2500
    let mut qm = QuestManager::new();
    let admin = Address::new(1);
    let user = Address::new(11);
    for _ in 0..4 {
        let id = plain_quest(&mut qm, admin, 0);
        qm.register(user, id, user, 0).unwrap();
    }
    qm.mark_user_eligible(admin, 0, user).unwrap();

    let stats = qm.get_user_stats(user);
    assert_eq!(stats.total_participated, 4);
    assert_eq!(stats.total_won, 1);
    assert_eq!(stats.total_rewards, 100);
    assert_eq!(stats.win_rate, 2500);
}

#[test]
fn test_user_stats_without_participation() {
    let qm = QuestManager::new();
    let stats = qm.get_user_stats(Address::new(5));
    assert_eq!(stats.total_participated, 0);
    assert_eq!(stats.total_won, 0);
    assert_eq!(stats.total_rewards, 0);
    assert_eq!(stats.win_rate, 0);
}

#[test]
fn test_quest_stats_counts_and_clock() {
    let mut qm = QuestManager::new();
    let admin = Address::new(1);
    let users = [Address::new(11), Address::new(12), Address::new(13)];
    let id = qm
        .create_quest(
            admin,
            admin,
            Address::new(900),
            100,
            2,
            DistributionType::Raffle,
            QuestType::PoolPosition(7),
            3600,
            200,
            "Stats".to_string(),
            "Reporting".to_string(),
            1000,
            200,
        )
        .unwrap();
    for u in users {
        qm.register(u, id, u, 1500).unwrap();
    }
    qm.mark_user_eligible(admin, id, users[0]).unwrap();
    qm.mark_user_eligible(admin, id, users[1]).unwrap();

    let st = qm.get_quest_stats(id, 2600).unwrap();
    assert_eq!(st.quest_id, id);
    assert_eq!(st.total_registered, 3);
    assert_eq!(st.total_eligible, 2);
    assert_eq!(st.total_winners, 0);
    assert_eq!(st.is_resolved, false);
    assert_eq!(st.time_remaining, 2000);

    qm.resolve_quest(admin, id, 4600).unwrap();
    let st = qm.get_quest_stats(id, 4600).unwrap();
    assert_eq!(st.is_resolved, true);
    assert_eq!(st.total_winners, 2);
    assert_eq!(st.time_remaining, 0);

    assert_eq!(qm.get_quest_stats(9, 0), Err(Error::QuestNotFound));
}

#[test]
fn test_active_quest_views() {
    let mut qm = QuestManager::new();
    let admin = Address::new(1);
    let a = plain_quest(&mut qm, admin, 0); // ends at 3600
    let b = plain_quest(&mut qm, admin, 5000); // ends at 8600
    let c = plain_quest(&mut qm, admin, 5000); // cancelled below
    qm.cancel_quest(admin, c).unwrap();

    let active = qm.get_active_quests(5000);
    assert_eq!(active.len(), 1);
    assert_eq!(active[0].id, b);

    let by_status = StorageHelper::get_quests_by_status(&qm, false, 5000);
    assert_eq!(by_status.len(), 2);
    assert_eq!(by_status[0].id, a);
    assert_eq!(by_status[1].id, c);
}

#[test]
fn test_quest_id_index_helpers() {
    let mut qm = QuestManager::new();
    let admin = Address::new(1);
    let a = plain_quest(&mut qm, admin, 0);
    let b = plain_quest(&mut qm, admin, 0);
    assert_eq!(StorageHelper::get_all_quest_ids(&qm), vec![a, b]);

    StorageHelper::remove_quest_id(&mut qm, a);
    assert_eq!(StorageHelper::get_all_quest_ids(&qm), vec![b]);
    // removing an id that is not indexed changes nothing
    StorageHelper::remove_quest_id(&mut qm, a);
    assert_eq!(StorageHelper::get_all_quest_ids(&qm), vec![b]);

    StorageHelper::add_quest_id(&mut qm, a);
    assert_eq!(StorageHelper::get_all_quest_ids(&qm), vec![b, a]);
}

#[test]
fn test_is_user_eligible_means_registered() {
    let mut qm = QuestManager::new();
    let admin = Address::new(1);
    let user = Address::new(11);
    let id = plain_quest(&mut qm, admin, 0);
    assert!(!StorageHelper::is_user_eligible(&qm, user, id));
    qm.register(user, id, user, 0).unwrap();
    assert!(StorageHelper::is_user_eligible(&qm, user, id));
    assert!(!StorageHelper::is_user_eligible(&qm, user, 9));
}

#[test]
fn test_quest_counter_and_lookup() {
    let mut qm = QuestManager::new();
    let admin = Address::new(1);
    assert_eq!(qm.get_quest_counter(), 0);
    assert_eq!(qm.get_quest(0).unwrap_err(), Error::QuestNotFound);
    let id = plain_quest(&mut qm, admin, 42);
    assert_eq!(qm.get_quest_counter(), 1);
    let q = qm.get_quest(id).unwrap();
    assert_eq!(q.id, id);
    assert_eq!(q.end_timestamp, 3642);
    assert_eq!(q.total_reward_pool, 100);
    assert_eq!(q.title, "Stats".to_string());
}
