use rand::rngs::StdRng;
use rand::SeedableRng;
use twitter_pipeline::chunks::split_chunks;
use twitter_pipeline::difference::Relations;
use twitter_pipeline::random::{pick_batch, take_first};
use twitter_pipeline::sql::queue::{ConfirmationQueue, Message, MessageQueue, MessageType};
use twitter_pipeline::sql::user_ids::{to_store_ids, UPSERT_CHUNK};
use twitter_pipeline::sql::whitelist::Whitelist;
use twitter_pipeline::sql::MemoryStore;
use twitter_pipeline::twitter::{Connection, Profile, RelationLookup};
use twitter_pipeline::unsigned::only_in_unsigned;
use twitter_pipeline::worker::follow_back_worker::FollowBackWorker;
use twitter_pipeline::worker::invalid_user_remover::{
    invalid_user_ids, is_invalid_user, InvalidUserRemover, ProfileScan,
};
use twitter_pipeline::worker::message_listener::{dispatch, ListenerAction, MessageListener};
use twitter_pipeline::worker::relation_sync::{
    get_candidate_ids, push_follow_actions, push_remove_candidates, RelationSynchronizer,
};
use twitter_pipeline::worker::user_data_sync::UserDataSynchronizer;
use twitter_pipeline::worker::user_id_sync::{IdPage, UserIdSynchronizer};
use twitter_pipeline::worker::{
    follow_candidates, on_finish, on_wake, one_hour_ago, pacing, remove_candidates,
    to_service_ids, to_unsigned, Pacing, WorkerKind, WorkerState,
};

fn relation(id: u64, connections: Vec<Connection>) -> RelationLookup {
    RelationLookup { id, connections }
}

fn sorted(mut ids: Vec<u64>) -> Vec<u64> {
    ids.sort();
    ids
}

#[test]
fn watermark_is_one_hour_back() {
    assert_eq!(one_hour_ago(1_700_000_000), 1_699_996_400);
    assert_eq!(one_hour_ago(3600), 0);
    assert_eq!(one_hour_ago(0), -3600);
    assert_eq!(one_hour_ago(i64::MAX as u64 + 3600), i64::MAX);
    assert_eq!(one_hour_ago(u64::MAX), i64::MAX);
}

#[test]
fn ids_keep_their_bits_for_the_service() {
    assert_eq!(to_unsigned(0), 0);
    assert_eq!(to_unsigned(42), 42);
    assert_eq!(to_unsigned(-1), u64::MAX);
    assert_eq!(to_unsigned(i64::MIN), 1u64 << 63);
    assert_eq!(to_service_ids(&vec![3, -1]), vec![3, u64::MAX]);
    assert_eq!(to_store_ids(&[3, u64::MAX]), vec![3, -1]);
    assert_eq!(
        split_chunks(&to_store_ids(&(0..2500).collect::<Vec<u64>>()), UPSERT_CHUNK)
            .iter()
            .map(|chunk| chunk.len())
            .collect::<Vec<usize>>(),
        vec![1000, 1000, 500]
    );
}

#[test]
fn follow_candidates_keep_followers_not_followed_nor_asked() {
    let relations = vec![
        relation(1, vec![Connection::FollowedBy]),
        relation(2, vec![Connection::FollowedBy, Connection::Following]),
        relation(3, vec![Connection::FollowedBy, Connection::FollowingRequested]),
        relation(4, vec![Connection::Unrelated]),
        relation(5, vec![Connection::Muting, Connection::FollowedBy]),
    ];
    assert_eq!(follow_candidates(&relations), vec![1, 5]);
    assert_eq!(follow_candidates(&vec![]), Vec::<u64>::new());
}

#[test]
fn remove_candidates_keep_friends_that_do_not_follow() {
    let relations = vec![
        relation(1, vec![Connection::Following]),
        relation(2, vec![Connection::FollowedBy, Connection::Following]),
        relation(3, vec![Connection::FollowedBy]),
        relation(4, vec![Connection::Following, Connection::Blocking]),
    ];
    let mut whitelist = Whitelist::new();
    assert_eq!(remove_candidates(&relations, &whitelist), vec![1, 4]);
    assert!(whitelist.insert(4));
    assert!(!whitelist.insert(4));
    assert!(whitelist.contains(4) && !whitelist.contains(1));
    assert_eq!(remove_candidates(&relations, &whitelist), vec![1]);
}

#[test]
fn cursor_walks_the_pages_and_starts_over() {
    let mut store = MemoryStore::new();
    let mut syncer = UserIdSynchronizer::new(true);
    assert_eq!(syncer.cursor, -1);
    let page = IdPage { ids: vec![1, 2], next_cursor: 1234 };
    store.put_user_ids(&page.ids, syncer.follower, 100);
    syncer.run(Some(page.next_cursor));
    assert_eq!(syncer.cursor, 1234);
    assert_eq!(store.get_user_ids(true, 0), vec![1, 2]);
    // A failed call leaves the cursor where it was.
    syncer.run(None);
    assert_eq!(syncer.cursor, 1234);
    // The last page sends the walk back to the start.
    store.put_user_ids(&[3], syncer.follower, 200);
    syncer.run(Some(0));
    assert_eq!(syncer.cursor, -1);
    assert_eq!(store.get_user_ids(true, 0), vec![1, 2, 3]);
    assert_eq!(store.get_user_ids(false, 0), Vec::<i64>::new());
    // The next pass refreshes what it sees again.
    store.put_user_ids(&[1], syncer.follower, 300);
    syncer.run(Some(0));
    assert_eq!(syncer.cursor, -1);
    assert_eq!(store.get_user_ids(true, 250), vec![1]);
    assert_eq!(store.followers.len(), 3);
    assert!(syncer.follower);
}

#[test]
fn candidates_come_from_both_directions() {
    let now: u64 = 1_000_000;
    let fresh = (now - 3599) as i64;
    let stale = (now - 3600) as i64;
    let mut store = MemoryStore::new();
    store.put_user_ids(&[1, 2], false, fresh);
    store.put_user_ids(&[2, 3], true, fresh);
    store.put_user_ids(&[4], true, stale);
    let watermark = one_hour_ago(now);
    let (unremoved, unfollowed) = get_candidate_ids(&store.relations_at(watermark));
    assert_eq!(unremoved, vec![1]);
    assert_eq!(unfollowed, vec![3]);
}

#[test]
fn end_to_end_follower_is_queued_and_followed_once() {
    let confirmed: i64 = 1_700_000_000;
    let mut store = MemoryStore::new();
    store.put_user_ids(&[42], true, confirmed);

    // The round's watermark is the confirmation time minus one hour.
    let now = confirmed as u64;
    assert_eq!(one_hour_ago(now), confirmed - 3600);
    let watermark = one_hour_ago(now);
    let mut syncer = RelationSynchronizer::new(717);
    let lookups = syncer.run(&store.relations_at(watermark));
    assert_eq!(lookups.unfollowed, vec![42]);
    assert_eq!(lookups.unremoved, Vec::<u64>::new());

    // The service says: a follower, not a friend, nothing pending.
    let answers = vec![relation(42, vec![Connection::FollowedBy])];
    assert_eq!(push_follow_actions(&mut store, &follow_candidates(&answers)), Ok(()));
    let dropped = remove_candidates(&vec![], &store.whitelist);
    assert_eq!(push_remove_candidates(&mut store, &dropped), Ok(()));
    assert_eq!(store.messages.len(), 1);
    assert_eq!(store.candidates.len(), 0);

    // The executor takes the action and is told to follow, exactly once.
    let listener = MessageListener {};
    let mut follows = Vec::new();
    for _ in 0..3 {
        match listener.run(&mut store) {
            Ok(ListenerAction::Follow(id)) => follows.push(id),
            Ok(ListenerAction::QueueEmpty) => {}
            other => panic!("unexpected {:?}", other),
        }
    }
    assert_eq!(follows, vec![42]);
    assert_eq!(store.messages.len(), 0);
}

#[test]
fn friends_that_do_not_follow_are_proposed_not_removed() {
    let mut store = MemoryStore::new();
    store.put_user_ids(&[7, 8], false, 10_000);
    let mut syncer = RelationSynchronizer::new(1);
    let watermark = one_hour_ago(10_000);
    let lookups = syncer.run(&store.relations_at(watermark));
    assert_eq!(sorted(lookups.unremoved), vec![7, 8]);
    store.whitelist.insert(8);
    let answers = vec![
        relation(7, vec![Connection::Following]),
        relation(8, vec![Connection::Following]),
    ];
    let proposed = remove_candidates(&answers, &store.whitelist);
    assert_eq!(push_remove_candidates(&mut store, &proposed), Ok(()));
    assert_eq!(store.messages.len(), 0);
    assert_eq!(store.pop_remove_candidate(), Ok(Some(7)));
    assert_eq!(store.pop_remove_candidate(), Ok(None));
}

#[test]
fn lookups_are_bounded() {
    let ids: Vec<u64> = (0..250).collect();
    let mut store = MemoryStore::new();
    store.put_user_ids(&ids, true, 99_000);
    let mut syncer = RelationSynchronizer::new(717);
    let watermark = one_hour_ago(100_000);
    let lookups = syncer.run(&store.relations_at(watermark));
    assert_eq!(lookups.unfollowed.len(), 100);
    let mut seen = sorted(lookups.unfollowed.clone());
    seen.dedup();
    assert_eq!(seen.len(), 100);
    assert!(seen.iter().all(|id| *id < 250));
    assert_eq!(lookups.unremoved.len(), 0);
}

#[test]
fn push_stops_when_the_store_refuses() {
    let mut store = MemoryStore::new();
    store.messages = twitter_pipeline::sql::queue::ExclusiveQueue::starting_at(u64::MAX - 1);
    let pushed = push_follow_actions(&mut store, &vec![1, 2, 3]);
    assert_eq!(pushed, Err(twitter_pipeline::sql::StoreError::RowIdsExhausted));
    assert_eq!(store.messages.len(), 1);
    assert_eq!(
        store.pop_message(),
        Ok(Some(Message { user_id: 1, message_type: MessageType::Follow }))
    );
}

#[test]
fn listener_dispatches_each_kind() {
    assert_eq!(
        dispatch(Some(Message { user_id: 5, message_type: MessageType::Follow })),
        ListenerAction::Follow(5)
    );
    assert_eq!(
        dispatch(Some(Message { user_id: 6, message_type: MessageType::Remove })),
        ListenerAction::RemoveUnimplemented(6)
    );
    assert_eq!(dispatch(None), ListenerAction::QueueEmpty);

    let mut store = MemoryStore::new();
    store.push_message(Message { user_id: 6, message_type: MessageType::Remove }).unwrap();
    let listener = MessageListener {};
    assert_eq!(listener.run(&mut store), Ok(ListenerAction::RemoveUnimplemented(6)));
    // The removal is dropped, not retried.
    assert_eq!(listener.run(&mut store), Ok(ListenerAction::QueueEmpty));
}

#[test]
fn shuffle_reorders_and_keeps_every_item() {
    let items: Vec<u64> = (0..50).collect();
    let mut rng = StdRng::seed_from_u64(717);
    let batch = pick_batch(items.clone(), 50, &mut rng);
    assert_ne!(batch, items);
    assert_eq!(sorted(batch), items);
    // The same seed gives the same order.
    let mut first = StdRng::seed_from_u64(3);
    let mut second = StdRng::seed_from_u64(3);
    assert_eq!(pick_batch(items.clone(), 10, &mut first), pick_batch(items, 10, &mut second));
}

#[test]
fn batches_take_the_first_items() {
    assert_eq!(take_first(vec![1, 2, 3], 2), vec![1, 2]);
    assert_eq!(take_first(vec![1, 2, 3], 3), vec![1, 2, 3]);
    assert_eq!(take_first(vec![1, 2, 3], 7), vec![1, 2, 3]);
    assert_eq!(take_first(vec![1, 2, 3], 0), Vec::<i32>::new());
}

#[test]
fn chunks_cover_the_list() {
    assert_eq!(split_chunks(&vec![1, 2, 3, 4, 5], 2), vec![vec![1, 2], vec![3, 4], vec![5]]);
    assert_eq!(split_chunks(&vec![1, 2, 3, 4], 2), vec![vec![1, 2], vec![3, 4]]);
    assert_eq!(split_chunks(&vec![1], 100), vec![vec![1]]);
    assert_eq!(split_chunks(&Vec::<u64>::new(), 3), Vec::<Vec<u64>>::new());
}

#[test]
fn follow_back_cuts_the_candidates_into_lookups() {
    let ids: Vec<u64> = (1..=230).collect();
    let mut store = MemoryStore::new();
    store.put_user_ids(&ids, true, 99_000);
    store.put_user_ids(&[1, 2, 3], false, 99_000);
    let mut worker = FollowBackWorker::new(9);
    let watermark = one_hour_ago(100_000);
    let batches = worker.start(&store.relations_at(watermark));
    let sizes: Vec<usize> = batches.iter().map(|batch| batch.len()).collect();
    assert_eq!(sizes, vec![100, 100, 27]);
    let all: Vec<u64> = batches.into_iter().flatten().collect();
    assert_eq!(sorted(all), (4..=230).collect::<Vec<u64>>());
}

#[test]
fn profile_lookups_come_in_full_batches_or_one_by_one() {
    let mut worker = UserDataSynchronizer::new(4);
    let many: Vec<i64> = (0..101).collect();
    assert_eq!(worker.start(many).len(), 100);
    let few: Vec<i64> = (0..100).collect();
    let one = worker.start(few);
    assert_eq!(one.len(), 1);
    assert!(one[0] < 100);
    assert_eq!(worker.start(vec![]), Vec::<u64>::new());
    assert_eq!(worker.start(vec![-1]), vec![u64::MAX]);
}

#[test]
fn quiet_accounts_without_friends_are_invalid() {
    let now: i64 = 1_700_000_000;
    let two_years: i64 = 3600 * 24 * 365 * 2;
    let quiet = Profile { id: 1, friends_count: 0, last_status_at: Some(now - two_years - 1) };
    let just_active = Profile { id: 2, friends_count: 0, last_status_at: Some(now - two_years) };
    let silent = Profile { id: 3, friends_count: 0, last_status_at: None };
    let social = Profile { id: 4, friends_count: 1, last_status_at: None };
    let extreme = Profile { id: 5, friends_count: 0, last_status_at: Some(i64::MIN) };
    let future = Profile { id: 6, friends_count: 0, last_status_at: Some(i64::MAX) };
    assert!(is_invalid_user(&quiet, now));
    assert!(!is_invalid_user(&just_active, now));
    assert!(is_invalid_user(&silent, now));
    assert!(!is_invalid_user(&social, now));
    assert!(is_invalid_user(&extreme, now));
    assert!(!is_invalid_user(&future, now));
    assert_eq!(
        invalid_user_ids(&vec![quiet, just_active, silent, social, extreme, future], now),
        vec![1, 3, 5]
    );
}

#[test]
fn invalid_ids_stop_at_one_lookup() {
    let users: Vec<Profile> = (0..150)
        .map(|id| Profile { id, friends_count: 0, last_status_at: None })
        .collect();
    assert_eq!(invalid_user_ids(&users, 0), (0..100).collect::<Vec<u64>>());
    assert_eq!(invalid_user_ids(&users[..100].to_vec(), 0).len(), 100);
}

#[test]
fn profile_scan_stops_after_a_lookup_worth_of_misses() {
    let mut scan = ProfileScan::new();
    let known = Profile { id: 9, friends_count: 2, last_status_at: None };
    assert!(scan.record(9, Some(known)));
    for id in 0..99 {
        assert!(scan.record(id, None));
    }
    assert!(scan.record(500, Some(known)));
    assert!(!scan.record(99, None));
    assert_eq!(scan.missing.len(), 100);
    assert_eq!(scan.missing[99], 99);
    assert_eq!(scan.known, vec![known, known]);
}

#[test]
fn remover_scans_friends_that_do_not_follow() {
    let mut store = MemoryStore::new();
    store.put_user_ids(&[3, 1, 2], false, 9_000);
    store.put_user_ids(&[2], true, 9_000);
    let remover = InvalidUserRemover {};
    let watermark = one_hour_ago(10_000);
    assert_eq!(
        remover.start(&store.relations_at(watermark)),
        vec![1, 3]
    );
    // An hour later nothing has been confirmed again, and every row is stale.
    let watermark = one_hour_ago(12_600);
    assert_eq!(
        remover.start(&store.relations_at(watermark)),
        Vec::<i64>::new()
    );
}

#[test]
fn each_worker_has_its_pauses() {
    assert_eq!(
        pacing(WorkerKind::UserIdSynchronizer),
        Pacing { normal_interval: 10, error_backoff: 10 }
    );
    assert_eq!(
        pacing(WorkerKind::RelationSynchronizer),
        Pacing { normal_interval: 60, error_backoff: 60 }
    );
    assert_eq!(
        pacing(WorkerKind::MessageListener),
        Pacing { normal_interval: 60, error_backoff: 60 }
    );
    assert_eq!(
        pacing(WorkerKind::FollowBackWorker),
        Pacing { normal_interval: 0, error_backoff: 600 }
    );
    assert_eq!(
        pacing(WorkerKind::InvalidUserRemover),
        Pacing { normal_interval: 300, error_backoff: 300 }
    );
    assert_eq!(
        pacing(WorkerKind::UserDataSynchronizer),
        Pacing { normal_interval: 10, error_backoff: 300 }
    );
}

#[test]
fn rounds_follow_each_other_with_pauses() {
    let pauses = pacing(WorkerKind::UserDataSynchronizer);
    let (state, start) = on_wake(WorkerState::Idle, 1000);
    assert_eq!((state, start), (WorkerState::Running, true));
    // No second round while one is under way.
    assert_eq!(on_wake(state, 1001), (WorkerState::Running, false));
    let failed = on_finish(state, pauses, false, 1005);
    assert_eq!(failed, WorkerState::Backoff { until: 1305 });
    assert_eq!(on_wake(failed, 1304), (failed, false));
    assert_eq!(on_wake(failed, 1305), (WorkerState::Running, true));
    let fine = on_finish(WorkerState::Running, pauses, true, 2000);
    assert_eq!(fine, WorkerState::Backoff { until: 2010 });
    // Only a round that is under way can end.
    assert_eq!(on_finish(WorkerState::Idle, pauses, true, 5), WorkerState::Idle);
    assert_eq!(on_finish(fine, pauses, false, 5), fine);
    // The clock's end is the latest pause.
    assert_eq!(
        on_finish(WorkerState::Running, pauses, false, u64::MAX - 5),
        WorkerState::Backoff { until: u64::MAX }
    );
}

#[test]
fn workers_made_of_one_seed_draw_alike() {
    let followers: Vec<i64> = (0..250).collect();
    let relations = Relations { friends: vec![], followers: followers.clone() };
    let first = RelationSynchronizer::new(717).run(&relations);
    let second = RelationSynchronizer::new(717).run(&relations);
    assert_eq!(first.unfollowed, second.unfollowed);
    let other = RelationSynchronizer::new(718).run(&relations);
    assert_ne!(first.unfollowed, other.unfollowed);

    assert_eq!(
        FollowBackWorker::new(3).start(&relations),
        FollowBackWorker::new(3).start(&relations)
    );
    assert_eq!(
        UserDataSynchronizer::new(3).start(followers.clone()),
        UserDataSynchronizer::new(3).start(followers)
    );
}

#[test]
fn candidates_ascend_as_the_service_numbers_them() {
    // The service's largest id is stored as -1: it comes last, not first.
    let relations = Relations { friends: vec![-1, 5], followers: vec![] };
    let (unremoved, unfollowed) = get_candidate_ids(&relations);
    assert_eq!(unremoved, vec![5, u64::MAX]);
    assert_eq!(unfollowed, Vec::<u64>::new());

    let relations = Relations {
        friends: vec![7, -2, 3, i64::MIN, 3],
        followers: vec![3, -9, 8, i64::MIN],
    };
    let (unremoved, unfollowed) = get_candidate_ids(&relations);
    assert_eq!(unremoved, vec![7, u64::MAX - 1]);
    assert_eq!(unfollowed, vec![8, u64::MAX - 8]);
    assert!(unremoved.iter().all(|id| !unfollowed.contains(id)));
}

#[test]
fn unsigned_difference_sorts_and_drops_duplicates() {
    assert_eq!(only_in_unsigned(&vec![5, 3, 9, 3, 1], &vec![9, 8]), vec![1, 3, 5]);
    assert_eq!(only_in_unsigned(&vec![u64::MAX, 0, 1 << 63], &vec![0]), vec![1 << 63, u64::MAX]);
    assert_eq!(only_in_unsigned(&vec![], &vec![1]), Vec::<u64>::new());
    assert_eq!(only_in_unsigned(&vec![2, 1], &vec![]), vec![1, 2]);
}

#[test]
fn follow_back_keeps_ids_of_both_signs() {
    let relations = Relations { friends: vec![4], followers: vec![-1, 4, 5] };
    let batches = FollowBackWorker::new(1).start(&relations);
    assert_eq!(batches.len(), 1);
    assert_eq!(sorted(batches[0].clone()), vec![5, u64::MAX]);
}
