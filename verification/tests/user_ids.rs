use twitter_pipeline::sql::user_ids::{
    old_followers, to_signed, IdTable, UserIdClient, UserIdEntry,
};
use twitter_pipeline::sql::MemoryStore;

#[test]
fn upsert_twice_leaves_one_row_with_the_latest_time() {
    let mut table = IdTable::new();
    table.upsert(42, 100);
    table.upsert(42, 250);
    assert_eq!(table.len(), 1);
    assert_eq!(table.confirmed_at(42), Some(250));
    assert_eq!(
        table.entries(),
        vec![UserIdEntry { id: 42, confirmed_at: 250, created_at: 100 }]
    );
}

#[test]
fn upsert_is_idempotent() {
    let mut table = IdTable::new();
    table.upsert(1, 10);
    table.upsert(2, 10);
    let once = table.entries();
    table.upsert(1, 10);
    assert_eq!(table.entries(), once);
}

#[test]
fn confirmation_never_moves_back() {
    let mut table = IdTable::new();
    table.upsert(42, 300);
    table.upsert(42, 200);
    assert_eq!(table.confirmed_at(42), Some(300));
    assert_eq!(table.len(), 1);
}

#[test]
fn stale_rows_stay_and_are_filtered_by_age() {
    let mut table = IdTable::new();
    table.put_user_ids(&[1, 2, 3], 100);
    table.put_user_ids(&[2, 4], 200);
    assert_eq!(table.len(), 4);
    assert_eq!(table.get_user_ids(99), vec![1, 2, 3, 4]);
    assert_eq!(table.get_user_ids(100), vec![2, 4]);
    assert_eq!(table.get_user_ids(200), Vec::<i64>::new());
    assert_eq!(table.confirmed_at(1), Some(100));
    assert_eq!(table.confirmed_at(9), None);
}

#[test]
fn put_user_ids_handles_duplicates_in_one_page() {
    let mut table = IdTable::new();
    table.put_user_ids(&[5, 5, 6], 10);
    assert_eq!(table.len(), 2);
    assert_eq!(table.get_user_ids(0), vec![5, 6]);
}

#[test]
fn ids_keep_their_bits_when_stored() {
    assert_eq!(to_signed(0), 0);
    assert_eq!(to_signed(42), 42);
    assert_eq!(to_signed(i64::MAX as u64), i64::MAX);
    assert_eq!(to_signed(i64::MAX as u64 + 1), i64::MIN);
    assert_eq!(to_signed(u64::MAX), -1);
}

#[test]
fn store_keeps_the_relations_apart() {
    let mut store = MemoryStore::new();
    store.put_user_ids(&[1, 2], true, 10);
    store.put_user_ids(&[3], false, 20);
    assert_eq!(store.get_user_ids(true, 0), vec![1, 2]);
    assert_eq!(store.get_user_ids(false, 0), vec![3]);
    let relations = store.relations_at(15);
    assert_eq!(relations.friends, vec![3]);
    assert_eq!(relations.followers, Vec::<i64>::new());
    assert_eq!(
        store.get_all_user_id_entries(false),
        Ok(vec![UserIdEntry { id: 3, confirmed_at: 20, created_at: 20 }])
    );
    assert_eq!(store.get_all_user_id_entries(true).map(|rows| rows.len()), Ok(2));
}

fn entry(id: i64, confirmed_at: i64) -> UserIdEntry {
    UserIdEntry { id, confirmed_at, created_at: 0 }
}

#[test]
fn old_followers_are_friends_whose_following_lapsed() {
    let now = 100_000;
    let friends = vec![
        entry(1, now - 10),
        entry(2, now - 10),
        entry(3, now - 10),
        entry(4, now - 3601),
        entry(5, now - 3600),
        entry(6, now - 10),
    ];
    let followers = vec![
        entry(1, now - 10 - 3601),
        entry(2, now - 10 - 3600),
        entry(4, 0),
        entry(5, 0),
        entry(6, 0),
        entry(6, now - 20),
    ];
    // 1 lapsed; 2 not yet; 3 never followed; 4 is a stale friend; 5 just counts;
    // for 6 the last row decides.
    assert_eq!(old_followers(&friends, &followers, now), vec![1, 5]);
    assert_eq!(old_followers(&friends, &vec![], now), Vec::<i64>::new());
    assert_eq!(
        old_followers(&vec![entry(1, i64::MAX)], &vec![entry(1, i64::MIN)], i64::MIN),
        vec![1]
    );
}
