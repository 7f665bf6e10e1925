//! The ids that were seen in one relation to the operator, each with the time at which
//! it was last seen. A row is never removed: an id that is no longer seen just keeps
//! an old time, and readers leave it out by asking for rows confirmed after some
//! moment.
use std::collections::BTreeMap;
use vstd::prelude::*;

verus! {

/// One observed id: when it was last confirmed and when it was first stored, in Unix
/// seconds.
#[derive(Clone, Copy, Debug, PartialEq, Eq, Structural)]
pub struct UserIdEntry {
    pub id: i64,
    pub confirmed_at: i64,
    pub created_at: i64,
}

/// No id occurs in two rows.
pub open spec fn distinct_ids(rows: Seq<UserIdEntry>) -> bool {
    forall|i: int, j: int| 0 <= i < j < rows.len() ==> rows[i].id != rows[j].id
}

/// Whether some row is about `id`.
pub open spec fn has_id(rows: Seq<UserIdEntry>, id: i64) -> bool {
    exists|i: int| 0 <= i < rows.len() && rows[i].id == id
}

/// The place of the row about `id`.
pub open spec fn position_of(rows: Seq<UserIdEntry>, id: i64) -> int {
    choose|i: int| 0 <= i < rows.len() && rows[i].id == id
}

/// The later of two times.
pub open spec fn later_of(a: i64, b: i64) -> i64 {
    if a < b {
        b
    } else {
        a
    }
}

/// The rows after `id` was seen at `now`: a row about `id` has its confirmation moved
/// forward to `now`, never back; without such a row a new one is added at the end.
pub open spec fn upserted(rows: Seq<UserIdEntry>, id: i64, now: i64) -> Seq<UserIdEntry> {
    if has_id(rows, id) {
        let i = position_of(rows, id);
        rows.update(
            i,
            UserIdEntry {
                id,
                confirmed_at: later_of(rows[i].confirmed_at, now),
                created_at: rows[i].created_at,
            },
        )
    } else {
        rows.push(UserIdEntry { id, confirmed_at: now, created_at: now })
    }
}

/// The rows after every id of `ids` was seen at `now`, one after the other.
pub open spec fn upserted_all(rows: Seq<UserIdEntry>, ids: Seq<i64>, now: i64) -> Seq<UserIdEntry>
    decreases ids.len(),
{
    if ids.len() == 0 {
        rows
    } else {
        upserted(upserted_all(rows, ids.drop_last(), now), ids.last(), now)
    }
}

/// The id of `row` if it was confirmed after `watermark`.
pub open spec fn id_if_confirmed_after(watermark: i64) -> spec_fn(UserIdEntry) -> Option<i64> {
    |row: UserIdEntry|
        if row.confirmed_at > watermark {
            Some(row.id)
        } else {
            None
        }
}

/// The ids confirmed after `watermark`, in the order of their rows.
pub open spec fn confirmed_after(rows: Seq<UserIdEntry>, watermark: i64) -> Seq<i64> {
    rows.filter_map(id_if_confirmed_after(watermark))
}

/// The signed number that the store keeps for an id: the same 64 bits.
pub open spec fn as_signed(id: u64) -> i64 {
    if id <= i64::MAX {
        id as i64
    } else {
        (id - 0x1_0000_0000_0000_0000) as i64
    }
}

/// The ids of `ids` as the store keeps them.
pub open spec fn all_signed(ids: Seq<u64>) -> Seq<i64> {
    ids.map_values(|id: u64| as_signed(id))
}

/// An id seen at `now` leaves the ids distinct and its row confirmed at `now` or later.
pub proof fn lemma_upserted(rows: Seq<UserIdEntry>, id: i64, now: i64)
    requires
        distinct_ids(rows),
    ensures
        distinct_ids(upserted(rows, id, now)),
        has_id(upserted(rows, id, now), id),
        upserted(rows, id, now).len() == rows.len() + if has_id(rows, id) { 0int } else { 1 },
        forall|other: i64| other != id ==> has_id(upserted(rows, id, now), other) == has_id(rows, other),
        ({
            let after = upserted(rows, id, now);
            let at = position_of(after, id);
            &&& 0 <= at < after.len()
            &&& after[at].id == id
            &&& forall|j: int| 0 <= j < after.len() && after[j].id == id ==> j == at
            &&& after[at].confirmed_at == if has_id(rows, id) {
                later_of(rows[position_of(rows, id)].confirmed_at, now)
            } else {
                now
            }
            &&& after[at].created_at == if has_id(rows, id) {
                rows[position_of(rows, id)].created_at
            } else {
                now
            }
        }),
{
    let after = upserted(rows, id, now);
    let i = if has_id(rows, id) {
        position_of(rows, id)
    } else {
        rows.len() as int
    };
    assert(after[i].id == id);
    assert forall|a: int, b: int| 0 <= a < b < after.len() implies after[a].id != after[b].id by {
        if has_id(rows, id) {
            assert(after[a].id == rows[a].id && after[b].id == rows[b].id);
        } else if b == rows.len() {
            assert(after[a].id == rows[a].id);
        }
    }
    assert forall|other: i64| other != id implies has_id(after, other) == has_id(rows, other) by {
        if has_id(rows, other) {
            let k = position_of(rows, other);
            assert(after[k].id == other);
        }
        if has_id(after, other) {
            let k = position_of(after, other);
            assert(rows[k].id == other);
        }
    }
    let at = position_of(after, id);
    assert(at == i) by {
        if at < i {
            assert(after[at].id != after[i].id);
        } else if i < at {
            assert(after[i].id != after[at].id);
        }
    }
    assert forall|j: int| 0 <= j < after.len() && after[j].id == id implies j == at by {
        if j < at {
            assert(after[j].id != after[at].id);
        } else if at < j {
            assert(after[at].id != after[j].id);
        }
    }
}

/// Seeing an id twice, the second time no earlier than the first, leaves exactly one
/// row about it, and that row carries the latest time at which the id was ever
/// confirmed. Where the id was new, or last confirmed no later than the second time,
/// this is the second time.
pub proof fn lemma_upsert_twice_keeps_one_row(
    rows: Seq<UserIdEntry>,
    id: i64,
    earlier: i64,
    later: i64,
)
    requires
        distinct_ids(rows),
        earlier <= later,
    ensures
        ({
            let after = upserted(upserted(rows, id, earlier), id, later);
            let at = position_of(after, id);
            &&& distinct_ids(after)
            &&& after.len() == upserted(rows, id, earlier).len()
            &&& 0 <= at < after.len()
            &&& forall|j: int| 0 <= j < after.len() ==> (after[j].id == id <==> j == at)
            &&& after[at].confirmed_at == if has_id(rows, id) {
                later_of(rows[position_of(rows, id)].confirmed_at, later)
            } else {
                later
            }
        }),
{
    lemma_upserted(rows, id, earlier);
    let once = upserted(rows, id, earlier);
    lemma_upserted(once, id, later);
    lemma_upserted(rows, id, later);
}

/// Seeing an id again at the same time changes nothing.
pub proof fn lemma_upsert_is_idempotent(rows: Seq<UserIdEntry>, id: i64, now: i64)
    requires
        distinct_ids(rows),
    ensures
        upserted(upserted(rows, id, now), id, now) == upserted(rows, id, now),
{
    lemma_upserted(rows, id, now);
    let once = upserted(rows, id, now);
    assert(upserted(once, id, now) =~= once);
}

/// A confirmation never moves back, and no row is ever lost: after any id was seen,
/// every id that had a row still has one, confirmed no earlier than before.
pub proof fn lemma_upsert_never_ages(rows: Seq<UserIdEntry>, id: i64, now: i64, other: i64)
    requires
        distinct_ids(rows),
        has_id(rows, other),
    ensures
        has_id(upserted(rows, id, now), other),
        upserted(rows, id, now)[position_of(upserted(rows, id, now), other)].confirmed_at
            >= rows[position_of(rows, other)].confirmed_at,
{
    lemma_upserted(rows, id, now);
    let after = upserted(rows, id, now);
    let k = position_of(rows, other);
    assert(after[k].id == other);
    let at = position_of(after, other);
    if at < k {
        assert(after[at].id != after[k].id);
    } else if k < at {
        assert(after[k].id != after[at].id);
    }
}

/// When the last row about `id` was confirmed, if there is a row about it.
pub open spec fn last_confirmed(rows: Seq<UserIdEntry>, id: i64) -> Option<i64>
    decreases rows.len(),
{
    if rows.len() == 0 {
        None
    } else if rows.last().id == id {
        Some(rows.last().confirmed_at)
    } else {
        last_confirmed(rows.drop_last(), id)
    }
}

/// The id of a friend whose following has lapsed: the friend was confirmed within the
/// hour before `now`, and as a follower the account was last confirmed more than an
/// hour before it was last confirmed as a friend.
pub open spec fn lapsed_pick(followers: Seq<UserIdEntry>, now: i64) -> spec_fn(UserIdEntry) -> Option<
    i64,
> {
    |friend: UserIdEntry|
        match last_confirmed(followers, friend.id) {
            Some(followed_at) => if friend.confirmed_at >= now - 3600 && friend.confirmed_at
                - followed_at > 3600 {
                Some(friend.id)
            } else {
                None
            },
            None => None,
        }
}

/// Maps of ids are kept in the order of the integers.
proof fn lemma_ids_are_ordered()
    ensures
        vstd::laws_cmp::obeys_cmp::<i64>(),
{
    broadcast use vstd::laws_cmp::group_laws_cmp;

}

/// Whether `times` leads from each id to the confirmation of the last of the first
/// `n` rows about it, and holds no other id.
spec fn records(times: Map<i64, i64>, rows: Seq<UserIdEntry>, n: int) -> bool {
    forall|id: i64|
        match #[trigger] last_confirmed(rows.take(n), id) {
            Some(confirmed_at) => times.contains_key(id) && times[id] == confirmed_at,
            None => !times.contains_key(id),
        }
}

/// The confirmations by id; of two rows about one id the later one counts.
fn confirmations(rows: &Vec<UserIdEntry>) -> (times: BTreeMap<i64, i64>)
    ensures
        records(times@, rows@, rows@.len() as int),
{
    let mut times: BTreeMap<i64, i64> = BTreeMap::new();
    let mut i: usize = 0;
    while i < rows.len()
        invariant
            i <= rows.len(),
            records(times@, rows@, i as int),
        decreases rows.len() - i,
    {
        proof {
            lemma_ids_are_ordered();
        }
        times.insert(rows[i].id, rows[i].confirmed_at);
        proof {
            assert(rows@.take(i + 1).drop_last() == rows@.take(i as int));
            assert forall|id: i64|
                match #[trigger] last_confirmed(rows@.take(i + 1), id) {
                    Some(confirmed_at) => times@.contains_key(id) && times@[id] == confirmed_at,
                    None => !times@.contains_key(id),
                } by {
                if rows@[i as int].id != id {
                    assert(last_confirmed(rows@.take(i + 1), id) == last_confirmed(
                        rows@.take(i as int),
                        id,
                    ));
                }
            }
        }
        i += 1;
    }
    times
}

/// The friends whose following has lapsed, in the order of their rows: accounts that
/// are still friends at `now` and have not been seen as followers for more than an
/// hour before that.
pub fn old_followers(friends: &Vec<UserIdEntry>, followers: &Vec<UserIdEntry>, now: i64) -> (ids: Vec<
    i64,
>)
    ensures
        ids@ == friends@.filter_map(lapsed_pick(followers@, now)),
{
    let follower_confirmed = confirmations(followers);
    let mut ids: Vec<i64> = Vec::new();
    let mut i: usize = 0;
    while i < friends.len()
        invariant
            i <= friends.len(),
            records(follower_confirmed@, followers@, followers@.len() as int),
            ids@ == friends@.take(i as int).filter_map(lapsed_pick(followers@, now)),
        decreases friends.len() - i,
    {
        proof {
            friends@.lemma_filter_map_take_succ(lapsed_pick(followers@, now), i as int);
            assert(followers@.take(followers@.len() as int) == followers@);
            lemma_ids_are_ordered();
        }
        let friend = friends[i];
        let lapsed = match follower_confirmed.get(&friend.id) {
            Some(followed_at) => (friend.confirmed_at as i128) >= (now as i128) - 3600
                && (friend.confirmed_at as i128) - (*followed_at as i128) > 3600,
            None => false,
        };
        if lapsed {
            ids.push(friend.id);
        }
        i += 1;
    }
    assert(friends@.take(friends.len() as int) == friends@);
    ids
}

/// Read access to every row of a relation, whatever its age.
pub trait UserIdClient {
    /// What a failure of the store looks like.
    type Error;

    /// The rows of the followers, if `follower` is set, and of the friends otherwise.
    spec fn entries(&self, follower: bool) -> Seq<UserIdEntry>;

    /// Reads every row of one relation.
    fn get_all_user_id_entries(&self, follower: bool) -> (entries: Result<Vec<UserIdEntry>, Self::Error>)
        ensures
            entries matches Ok(rows) ==> rows@ == self.entries(follower),
    ;
}

/// The table of the ids seen in one relation.
pub struct IdTable {
    rows: Vec<UserIdEntry>,
}

impl View for IdTable {
    type V = Seq<UserIdEntry>;

    closed spec fn view(&self) -> Seq<UserIdEntry> {
        self.rows@
    }
}

/// Turns an id of the service into the number that the store keeps for it.
pub fn to_signed(id: u64) -> (signed: i64)
    ensures
        signed == as_signed(id),
{
    if id <= 0x7fff_ffff_ffff_ffff {
        id as i64
    } else {
        let low: u64 = id - 0x8000_0000_0000_0000;
        (low as i64) + i64::MIN
    }
}

/// The most ids that one write to the store carries.
pub const UPSERT_CHUNK: usize = 1000;

/// Turns ids of the service into the numbers that the store keeps for them.
pub fn to_store_ids(ids: &[u64]) -> (out: Vec<i64>)
    ensures
        out@ == all_signed(ids@),
{
    let mut out: Vec<i64> = Vec::new();
    let mut i: usize = 0;
    while i < ids.len()
        invariant
            i <= ids.len(),
            out@ == all_signed(ids@.take(i as int)),
        decreases ids.len() - i,
    {
        out.push(to_signed(ids[i]));
        assert(out@ =~= all_signed(ids@.take(i + 1)));
        i += 1;
    }
    assert(ids@.take(ids.len() as int) == ids@);
    out
}

impl IdTable {
    /// No id has two rows.
    pub open spec fn wf(&self) -> bool {
        distinct_ids(self@)
    }

    /// A table without rows.
    pub fn new() -> (table: Self)
        ensures
            table@ == Seq::<UserIdEntry>::empty(),
            table.wf(),
    {
        IdTable { rows: Vec::new() }
    }

    /// The number of rows.
    pub fn len(&self) -> (n: usize)
        ensures
            n == self@.len(),
    {
        self.rows.len()
    }

    fn find(&self, id: i64) -> (found: Option<usize>)
        requires
            self.wf(),
        ensures
            found is Some == has_id(self@, id),
            found matches Some(i) ==> i == position_of(self@, id) && i < self@.len() && self@[i as int].id
                == id,
    {
        let mut i: usize = 0;
        while i < self.rows.len()
            invariant
                i <= self.rows.len(),
                self.wf(),
                forall|j: int| 0 <= j < i ==> self.rows@[j].id != id,
            decreases self.rows.len() - i,
        {
            if self.rows[i].id == id {
                proof {
                    let at = position_of(self@, id);
                    if at < i {
                    } else if i < at {
                        assert(self@[i as int].id != self@[at].id);
                    }
                }
                return Some(i);
            }
            i += 1;
        }
        None
    }

    /// When `id` was last confirmed, if it has a row.
    pub fn confirmed_at(&self, id: i64) -> (at: Option<i64>)
        requires
            self.wf(),
        ensures
            at is Some == has_id(self@, id),
            at matches Some(t) ==> t == self@[position_of(self@, id)].confirmed_at,
    {
        match self.find(id) {
            Some(i) => Some(self.rows[i].confirmed_at),
            None => None,
        }
    }

    /// Records that `id` was seen at `now`.
    pub fn upsert(&mut self, id: i64, now: i64)
        requires
            old(self).wf(),
        ensures
            final(self).wf(),
            final(self)@ == upserted(old(self)@, id, now),
    {
        proof {
            lemma_upserted(self@, id, now);
        }
        match self.find(id) {
            Some(i) => {
                let row = self.rows[i];
                let confirmed_at = if row.confirmed_at < now {
                    now
                } else {
                    row.confirmed_at
                };
                self.rows.set(i, UserIdEntry { id, confirmed_at, created_at: row.created_at });
            },
            None => {
                self.rows.push(UserIdEntry { id, confirmed_at: now, created_at: now });
            },
        }
    }

    /// Records that every id of `ids` was seen at `now`.
    pub fn put_user_ids(&mut self, ids: &[u64], now: i64)
        requires
            old(self).wf(),
        ensures
            final(self).wf(),
            final(self)@ == upserted_all(old(self)@, all_signed(ids@), now),
    {
        let ghost signed = all_signed(ids@);
        let mut i: usize = 0;
        while i < ids.len()
            invariant
                i <= ids.len(),
                signed == all_signed(ids@),
                self.wf(),
                self@ == upserted_all(old(self)@, signed.take(i as int), now),
            decreases ids.len() - i,
        {
            proof {
                assert(signed.take(i + 1).drop_last() == signed.take(i as int));
            }
            self.upsert(to_signed(ids[i]), now);
            i += 1;
        }
        assert(signed.take(ids.len() as int) == signed);
    }

    /// The ids confirmed after `confirmed_after`, in the order of their rows.
    pub fn get_user_ids(&self, confirmed_after: i64) -> (ids: Vec<i64>)
        ensures
            ids@ == self::confirmed_after(self@, confirmed_after),
    {
        let ghost pick = id_if_confirmed_after(confirmed_after);
        let mut ids: Vec<i64> = Vec::new();
        let mut i: usize = 0;
        while i < self.rows.len()
            invariant
                i <= self.rows.len(),
                pick == id_if_confirmed_after(confirmed_after),
                ids@ == self.rows@.take(i as int).filter_map(pick),
            decreases self.rows.len() - i,
        {
            proof {
                self.rows@.lemma_filter_map_take_succ(pick, i as int);
            }
            if self.rows[i].confirmed_at > confirmed_after {
                ids.push(self.rows[i].id);
            }
            i += 1;
        }
        assert(self.rows@.take(self.rows.len() as int) == self.rows@);
        ids
    }

    /// Every row, in order.
    pub fn entries(&self) -> (entries: Vec<UserIdEntry>)
        ensures
            entries@ == self@,
    {
        let mut entries: Vec<UserIdEntry> = Vec::new();
        let mut i: usize = 0;
        while i < self.rows.len()
            invariant
                i <= self.rows.len(),
                entries@ == self.rows@.take(i as int),
            decreases self.rows.len() - i,
        {
            entries.push(self.rows[i]);
            i += 1;
        }
        entries
    }
}

} // verus!
