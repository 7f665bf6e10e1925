//! Drops, by itself and without the queue, friends that do not follow back and have
//! gone quiet.
use crate::difference::{ascending, ids_only_in, only_in, Relations};
use crate::twitter::Profile;
use crate::worker::{as_unsigned, to_unsigned, LOOKUP_LIMIT};
use vstd::prelude::*;

verus! {

/// Two years, in seconds: an account that has not posted for longer is quiet.
pub const QUIET_AFTER: i64 = 63_072_000;

/// Whether an account is of no use as a friend: it follows nobody, and it has never
/// posted or last posted more than two years before `now`.
pub open spec fn invalid_user(user: Profile, now: i64) -> bool {
    &&& user.friends_count == 0
    &&& match user.last_status_at {
        Some(posted_at) => now - posted_at > QUIET_AFTER,
        None => true,
    }
}

/// Whether an account is of no use as a friend at `now`.
pub fn is_invalid_user(user: &Profile, now: i64) -> (invalid: bool)
    ensures
        invalid == invalid_user(*user, now),
{
    let no_friend = user.friends_count == 0;
    let no_tweet = match user.last_status_at {
        Some(posted_at) => (now as i128) - (posted_at as i128) > 63_072_000i128,
        None => true,
    };
    no_tweet && no_friend
}

/// The id of an account that is of no use as a friend at `now`.
pub open spec fn invalid_pick(now: i64) -> spec_fn(Profile) -> Option<u64> {
    |user: Profile|
        if invalid_user(user, now) {
            Some(user.id)
        } else {
            None
        }
}

/// The first accounts of `users` that are of no use as friends at `now`, no more than
/// one lookup takes.
pub open spec fn invalid_ids(users: Seq<Profile>, now: i64) -> Seq<u64> {
    let all = users.filter_map(invalid_pick(now));
    if all.len() <= LOOKUP_LIMIT {
        all
    } else {
        all.take(LOOKUP_LIMIT as int)
    }
}

/// The accounts to look up before they are dropped.
pub fn invalid_user_ids(users: &Vec<Profile>, now: i64) -> (ids: Vec<u64>)
    ensures
        ids@ == invalid_ids(users@, now),
{
    let mut ids: Vec<u64> = Vec::new();
    let mut i: usize = 0;
    while i < users.len() && ids.len() < LOOKUP_LIMIT
        invariant
            i <= users.len(),
            ids@.len() <= LOOKUP_LIMIT,
            ids@ == users@.take(i as int).filter_map(invalid_pick(now)),
        decreases users.len() - i,
    {
        proof {
            users@.lemma_filter_map_take_succ(invalid_pick(now), i as int);
        }
        if is_invalid_user(&users[i], now) {
            ids.push(users[i].id);
        }
        i += 1;
    }
    proof {
        let all = users@.filter_map(invalid_pick(now));
        if i == users.len() {
            assert(users@.take(i as int) == users@);
        } else {
            lemma_filter_map_prefix(users@, invalid_pick(now), i as int);
        }
    }
    ids
}

/// What a prefix of a list keeps is a prefix of what the list keeps.
pub proof fn lemma_filter_map_prefix<A, B>(items: Seq<A>, pick: spec_fn(A) -> Option<B>, n: int)
    requires
        0 <= n <= items.len(),
    ensures
        items.take(n).filter_map(pick).len() <= items.filter_map(pick).len(),
        items.take(n).filter_map(pick) == items.filter_map(pick).take(
            items.take(n).filter_map(pick).len() as int,
        ),
    decreases items.len() - n,
{
    if n == items.len() {
        assert(items.take(n) == items);
        assert(items.filter_map(pick).take(items.filter_map(pick).len() as int) == items.filter_map(pick));
    } else {
        lemma_filter_map_prefix(items, pick, n + 1);
        items.lemma_filter_map_take_succ(pick, n);
        let short = items.take(n).filter_map(pick);
        let long = items.take(n + 1).filter_map(pick);
        let all = items.filter_map(pick);
        assert(short == long.take(short.len() as int));
        assert(long == all.take(long.len() as int));
        assert(short =~= all.take(short.len() as int));
    }
}

/// What a scan of the friends that do not follow has found so far.
pub struct ProfileScan {
    /// The profiles that the store held.
    pub known: Vec<Profile>,
    /// The accounts whose profiles have to be asked for.
    pub missing: Vec<u64>,
}

impl ProfileScan {
    /// A scan that has seen no account yet.
    pub fn new() -> (scan: Self)
        ensures
            scan.known@.len() == 0,
            scan.missing@.len() == 0,
    {
        ProfileScan { known: Vec::new(), missing: Vec::new() }
    }

    /// Takes in what the store holds about the next account: its profile, or nothing.
    /// Returns whether the scan goes on; it ends once as many profiles are missing as
    /// one lookup asks for.
    pub fn record(&mut self, user_id: i64, cached: Option<Profile>) -> (go_on: bool)
        ensures
            match cached {
                Some(profile) => {
                    &&& final(self).known@ == old(self).known@.push(profile)
                    &&& final(self).missing@ == old(self).missing@
                    &&& go_on
                },
                None => {
                    &&& final(self).known@ == old(self).known@
                    &&& final(self).missing@ == old(self).missing@.push(as_unsigned(user_id))
                    &&& go_on == (final(self).missing@.len() != LOOKUP_LIMIT)
                },
            },
    {
        match cached {
            Some(profile) => {
                self.known.push(profile);
                true
            },
            None => {
                self.missing.push(to_unsigned(user_id));
                self.missing.len() != LOOKUP_LIMIT
            },
        }
    }
}

/// The worker that drops friends.
pub struct InvalidUserRemover {}

impl InvalidUserRemover {
    /// The first half of a round: the friends that do not follow, each once and in
    /// ascending order. Their profiles are then scanned with `ProfileScan`, the
    /// quiet ones are picked with `invalid_user_ids` and looked up once more, and
    /// what `remove_candidates` keeps of the answers is unfollowed, one account after
    /// the other with `ACTION_PAUSE` seconds between them.
    pub fn start(&self, relations: &Relations) -> (non_followers: Vec<i64>)
        ensures
            ascending(non_followers@),
            non_followers@.to_set() == ids_only_in(relations.friends@, relations.followers@),
    {
        only_in(&relations.friends, &relations.followers)
    }
}

} // verus!
