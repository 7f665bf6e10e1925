use twitter_pipeline::difference::{only_in, Direction};
use twitter_pipeline::get_difference;
use twitter_pipeline::sql::MemoryStore;

#[test]
fn only_in_sorts_and_drops_duplicates() {
    assert_eq!(only_in(&vec![5, 3, 9, 3, 1], &vec![9, 8]), vec![1, 3, 5]);
    assert_eq!(only_in(&vec![], &vec![1]), Vec::<i64>::new());
    assert_eq!(only_in(&vec![2, 1], &vec![]), vec![1, 2]);
    assert_eq!(only_in(&vec![-4, 7, i64::MIN], &vec![7]), vec![i64::MIN, -4]);
}

#[test]
fn difference_of_disjoint_relations_keeps_the_whole_side() {
    let mut store = MemoryStore::new();
    store.put_user_ids(&[1, 2, 3], false, 1000);
    store.put_user_ids(&[10, 20], true, 1000);
    assert_eq!(get_difference(&store, 999, Direction::FriendsMinusFollowers), vec![1, 2, 3]);
    assert_eq!(get_difference(&store, 999, Direction::FollowersMinusFriends), vec![10, 20]);
}

#[test]
fn difference_leaves_out_what_the_watermark_hides() {
    let mut store = MemoryStore::new();
    store.put_user_ids(&[1, 2], false, 100);
    store.put_user_ids(&[3], false, 200);
    store.put_user_ids(&[2], true, 100);
    store.put_user_ids(&[4], true, 200);
    // Everything is fresh: 2 is on both sides.
    assert_eq!(get_difference(&store, 99, Direction::FriendsMinusFollowers), vec![1, 3]);
    assert_eq!(get_difference(&store, 99, Direction::FollowersMinusFriends), vec![4]);
    // Only what was confirmed after 100 counts, strictly.
    assert_eq!(get_difference(&store, 100, Direction::FriendsMinusFollowers), vec![3]);
    assert_eq!(get_difference(&store, 100, Direction::FollowersMinusFriends), vec![4]);
    assert_eq!(get_difference(&store, 200, Direction::FriendsMinusFollowers), Vec::<i64>::new());
}

#[test]
fn a_stale_follower_does_not_hide_a_friend() {
    let mut store = MemoryStore::new();
    store.put_user_ids(&[7], true, 100);
    store.put_user_ids(&[7], false, 500);
    assert_eq!(get_difference(&store, 300, Direction::FriendsMinusFollowers), vec![7]);
    assert_eq!(get_difference(&store, 300, Direction::FollowersMinusFriends), Vec::<i64>::new());
}

#[test]
fn directions_mirror_each_other() {
    let mut store = MemoryStore::new();
    store.put_user_ids(&[1, 2, 3, 4], false, 50);
    store.put_user_ids(&[3, 4, 5], true, 50);
    let mut swapped = MemoryStore::new();
    swapped.put_user_ids(&[1, 2, 3, 4], true, 50);
    swapped.put_user_ids(&[3, 4, 5], false, 50);
    assert_eq!(
        get_difference(&store, 0, Direction::FriendsMinusFollowers),
        get_difference(&swapped, 0, Direction::FollowersMinusFriends)
    );
    assert_eq!(get_difference(&store, 0, Direction::FriendsMinusFollowers), vec![1, 2]);
    assert_eq!(get_difference(&store, 0, Direction::FollowersMinusFriends), vec![5]);
    // Reading twice gives the same answer.
    assert_eq!(get_difference(&store, 0, Direction::FollowersMinusFriends), vec![5]);
}
