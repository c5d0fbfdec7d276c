//! Time-bounded membership cache: which users are currently opted in, and
//! when each opt-in expires.
//!
//! Expiry is lazy: an entry is logically absent as soon as the clock passes
//! its expiry timestamp, with no background sweep. Every operation takes the
//! current time as an argument, so the cache itself holds no clock.
use vstd::prelude::*;
use vstd::map::*;

verus! {

/// Membership cache for one community session, together with the path of the
/// directory where its snapshot is persisted.
pub struct SayCache {
    entries: Vec<(u64, u64)>,
    path: String,
}

impl SayCache {
    /// At most one entry per user.
    pub closed spec fn wf(&self) -> bool {
        forall|i: int, j: int|
            0 <= i < j < self.entries@.len() ==> (#[trigger] self.entries@[i]).0 != (
            #[trigger] self.entries@[j]).0
    }

    pub closed spec fn spec_contains(&self, user: u64) -> bool {
        exists|i: int| 0 <= i < self.entries@.len() && (#[trigger] self.entries@[i]).0 == user
    }

    /// Expiry timestamp recorded for `user`; meaningful only when
    /// `spec_contains(user)` holds and the cache is well formed.
    pub closed spec fn spec_expiry(&self, user: u64) -> u64 {
        let i = choose|i: int|
            0 <= i < self.entries@.len() && (#[trigger] self.entries@[i]).0 == user;
        self.entries@[i].1
    }

    /// The cache as a map from user identifier to expiry timestamp.
    pub open spec fn as_map(&self) -> Map<u64, u64> {
        Map::new(|u: u64| self.spec_contains(u), |u: u64| self.spec_expiry(u))
    }

    /// Number of entries held; with `wf`, also the number of distinct users.
    pub closed spec fn user_count(&self) -> nat {
        self.entries@.len()
    }

    pub closed spec fn spec_path(&self) -> Seq<char> {
        self.path@
    }

    /// `user` is opted in at time `now`: an entry exists and has not expired.
    pub open spec fn spec_is_active(&self, user: u64, now: u64) -> bool {
        self.as_map().contains_key(user) && now < self.as_map()[user]
    }

    /// All users opted in at time `now`.
    pub open spec fn active_set(&self, now: u64) -> Set<u64> {
        Set::new(|u: u64| self.spec_is_active(u, now))
    }

    pub fn new(path: String) -> (c: SayCache)
        ensures
            c.wf(),
            c.as_map() == Map::<u64, u64>::empty(),
            c.user_count() == 0,
            c.spec_path() == path@,
    {
        let c = SayCache { entries: Vec::new(), path };
        proof {
            assert(c.as_map() =~= Map::<u64, u64>::empty());
        }
        c
    }

    pub fn path(&self) -> (r: &str)
        ensures
            r@ == self.spec_path(),
    {
        self.path.as_str()
    }

    pub fn len(&self) -> (r: usize)
        ensures
            r == self.user_count(),
    {
        self.entries.len()
    }

    fn find(&self, user: u64) -> (r: Option<usize>)
        requires
            self.wf(),
        ensures
            match r {
                Some(i) => i < self.entries@.len() && self.entries@[i as int].0 == user
                    && self.spec_contains(user) && self.spec_expiry(user) == self.entries@[
                    i as int].1,
                None => !self.spec_contains(user),
            },
    {
        let n = self.entries.len();
        let mut i: usize = 0;
        while i < n
            invariant
                i <= n,
                n == self.entries@.len(),
                self.wf(),
                forall|k: int| 0 <= k < i ==> (#[trigger] self.entries@[k]).0 != user,
            decreases n - i,
        {
            if self.entries[i].0 == user {
                proof {
                    let j = choose|j: int|
                        0 <= j < self.entries@.len() && (#[trigger] self.entries@[j]).0 == user;
                    assert(j == i as int);
                }
                return Some(i);
            }
            i = i + 1;
        }
        None
    }

    /// Inserts `user` or extends their window: the entry's expiry becomes
    /// `now + ttl`. Replaces, never duplicates: refreshing a present user
    /// leaves the entry count unchanged.
    pub fn refresh(&mut self, user: u64, now: u64, ttl: u64)
        requires
            old(self).wf(),
            now + ttl <= u64::MAX,
        ensures
            final(self).wf(),
            final(self).as_map() == old(self).as_map().insert(user, (now + ttl) as u64),
            final(self).spec_path() == old(self).spec_path(),
            old(self).spec_contains(user) ==> final(self).user_count() == old(self).user_count(),
            !old(self).spec_contains(user) ==> final(self).user_count() == old(self).user_count()
                + 1,
    {
        let exp: u64 = now + ttl;
        let found = self.find(user);
        match found {
            Some(i) => {
                self.entries[i] = (user, exp);
                proof {
                    assert forall|u2: u64| #[trigger]
                        self.spec_contains(u2) == (old(self).spec_contains(u2) || u2 == user) by {
                        if self.spec_contains(u2) {
                            let k = choose|k: int|
                                0 <= k < self.entries@.len() && (#[trigger] self.entries@[k]).0
                                    == u2;
                            if k != i as int {
                                assert(old(self).entries@[k].0 == u2);
                            }
                        }
                        if old(self).spec_contains(u2) {
                            let k = choose|k: int|
                                0 <= k < old(self).entries@.len() && (
                                #[trigger] old(self).entries@[k]).0 == u2;
                            if k != i as int {
                                assert(self.entries@[k].0 == u2);
                            }
                        }
                        if u2 == user {
                            assert(self.entries@[i as int].0 == user);
                        }
                    }
                    assert(self.spec_expiry(user) == exp) by {
                        let k = choose|k: int|
                            0 <= k < self.entries@.len() && (#[trigger] self.entries@[k]).0 == user;
                        if k != i as int {
                            assert(old(self).entries@[k].0 == user);
                        }
                    }
                    assert forall|u2: u64|
                        u2 != user && self.spec_contains(u2) implies #[trigger] self.spec_expiry(u2)
                        == old(self).spec_expiry(u2) by {
                        let k = choose|k: int|
                            0 <= k < self.entries@.len() && (#[trigger] self.entries@[k]).0 == u2;
                        assert(old(self).entries@[k].0 == u2);
                        let k2 = choose|k2: int|
                            0 <= k2 < old(self).entries@.len() && (
                            #[trigger] old(self).entries@[k2]).0 == u2;
                        assert(k2 == k);
                    }
                    assert(self.as_map() =~= old(self).as_map().insert(user, exp));
                }
            }
            None => {
                self.entries.push((user, exp));
                proof {
                    let m = self.entries@.len() - 1;
                    assert(self.entries@[m].0 == user);
                    assert forall|u2: u64| #[trigger]
                        self.spec_contains(u2) == (old(self).spec_contains(u2) || u2 == user) by {
                        if self.spec_contains(u2) {
                            let k = choose|k: int|
                                0 <= k < self.entries@.len() && (#[trigger] self.entries@[k]).0
                                    == u2;
                            if k != m {
                                assert(old(self).entries@[k].0 == u2);
                            }
                        }
                        if old(self).spec_contains(u2) {
                            let k = choose|k: int|
                                0 <= k < old(self).entries@.len() && (
                                #[trigger] old(self).entries@[k]).0 == u2;
                            assert(self.entries@[k].0 == u2);
                        }
                    }
                    assert(self.wf()) by {
                        assert forall|i: int, j: int|
                            0 <= i < j < self.entries@.len() implies (
                        #[trigger] self.entries@[i]).0 != (#[trigger] self.entries@[j]).0 by {
                            if j == m {
                                assert(old(self).entries@[i].0 == self.entries@[i].0);
                                if self.entries@[i].0 == user {
                                    assert(old(self).spec_contains(user));
                                }
                            }
                        }
                    }
                    assert(self.spec_expiry(user) == exp) by {
                        let k = choose|k: int|
                            0 <= k < self.entries@.len() && (#[trigger] self.entries@[k]).0 == user;
                        if k != m {
                            assert(old(self).entries@[k].0 == user);
                            assert(old(self).spec_contains(user));
                        }
                    }
                    assert forall|u2: u64|
                        u2 != user && self.spec_contains(u2) implies #[trigger] self.spec_expiry(u2)
                        == old(self).spec_expiry(u2) by {
                        let k = choose|k: int|
                            0 <= k < self.entries@.len() && (#[trigger] self.entries@[k]).0 == u2;
                        assert(k != m);
                        assert(old(self).entries@[k].0 == u2);
                        let k2 = choose|k2: int|
                            0 <= k2 < old(self).entries@.len() && (
                            #[trigger] old(self).entries@[k2]).0 == u2;
                        assert(k2 == k);
                    }
                    assert(self.as_map() =~= old(self).as_map().insert(user, exp));
                }
            }
        }
    }

    /// Removes `user` unconditionally; a no-op when absent.
    pub fn revoke(&mut self, user: u64)
        requires
            old(self).wf(),
        ensures
            final(self).wf(),
            final(self).as_map() == old(self).as_map().remove(user),
            final(self).spec_path() == old(self).spec_path(),
            old(self).spec_contains(user) ==> final(self).user_count() == (old(
                self,
            ).user_count() - 1) as nat,
            !old(self).spec_contains(user) ==> final(self).user_count() == old(self).user_count(),
    {
        let found = self.find(user);
        match found {
            Some(i) => {
                self.entries.remove(i);
                proof {
                    let pre = old(self).entries@;
                    let post = self.entries@;
                    assert(post =~= pre.subrange(0, i as int) + pre.subrange(
                        i as int + 1,
                        pre.len() as int,
                    ));
                    assert forall|k: int| 0 <= k < post.len() implies #[trigger] post[k] == (
                    if k < i as int {
                        pre[k]
                    } else {
                        pre[k + 1]
                    }) by {}
                    assert(self.wf()) by {
                        assert forall|a: int, b: int| 0 <= a < b < post.len() implies (
                        #[trigger] post[a]).0 != (#[trigger] post[b]).0 by {
                            let a2 = if a < i as int { a } else { a + 1 };
                            let b2 = if b < i as int { b } else { b + 1 };
                            assert(pre[a2].0 != pre[b2].0);
                        }
                    }
                    assert forall|u2: u64| u2 != user implies #[trigger] self.spec_contains(u2)
                        == old(self).spec_contains(u2) && (self.spec_contains(u2)
                        ==> self.spec_expiry(u2) == old(self).spec_expiry(u2)) by {
                        if old(self).spec_contains(u2) {
                            let k = choose|k: int|
                                0 <= k < pre.len() && (#[trigger] pre[k]).0 == u2;
                            assert(k != i as int);
                            let k2 = if k < i as int { k } else { k - 1 };
                            assert(post[k2].0 == u2);
                        }
                        if self.spec_contains(u2) {
                            let k = choose|k: int|
                                0 <= k < post.len() && (#[trigger] post[k]).0 == u2;
                            let k2 = if k < i as int { k } else { k + 1 };
                            assert(pre[k2].0 == u2);
                        }
                        if self.spec_contains(u2) && old(self).spec_contains(u2) {
                            let k = choose|k: int|
                                0 <= k < post.len() && (#[trigger] post[k]).0 == u2;
                            let k2 = if k < i as int { k } else { k + 1 };
                            assert(pre[k2].0 == u2);
                            let k3 = choose|k3: int|
                                0 <= k3 < pre.len() && (#[trigger] pre[k3]).0 == u2;
                            assert(k3 == k2);
                        }
                    }
                    assert(!self.spec_contains(user)) by {
                        if self.spec_contains(user) {
                            let k = choose|k: int|
                                0 <= k < post.len() && (#[trigger] post[k]).0 == user;
                            let k2 = if k < i as int { k } else { k + 1 };
                            assert(pre[k2].0 == user);
                            assert(pre[i as int].0 == user);
                        }
                    }
                    assert(self.as_map() =~= old(self).as_map().remove(user));
                }
            }
            None => {
                proof {
                    assert(self.as_map() =~= old(self).as_map().remove(user));
                }
            }
        }
    }

    /// True iff `user` has an entry that has not expired at time `now`.
    pub fn is_active(&self, user: u64, now: u64) -> (r: bool)
        requires
            self.wf(),
        ensures
            r == self.spec_is_active(user, now),
    {
        match self.find(user) {
            Some(i) => now < self.entries[i].1,
            None => false,
        }
    }

    /// The currently non-expired user identifiers, without duplicates, for
    /// persistence in the membership snapshot.
    pub fn to_vec(&self, now: u64) -> (r: Vec<u64>)
        requires
            self.wf(),
        ensures
            r@.no_duplicates(),
            r@.to_set() == self.active_set(now),
            r@.len() <= self.user_count(),
    {
        let n = self.entries.len();
        let mut r: Vec<u64> = Vec::new();
        let mut i: usize = 0;
        while i < n
            invariant
                i <= n,
                n == self.entries@.len(),
                self.wf(),
                r@.no_duplicates(),
                r@.len() <= i,
                forall|u: u64| #[trigger]
                    r@.contains(u) <==> exists|k: int|
                        0 <= k < i && (#[trigger] self.entries@[k]).0 == u && now
                            < self.entries@[k].1,
            decreases n - i,
        {
            let e = self.entries[i];
            if now < e.1 {
                proof {
                    assert(!r@.contains(e.0)) by {
                        if r@.contains(e.0) {
                            let k = choose|k: int|
                                0 <= k < i && (#[trigger] self.entries@[k]).0 == e.0 && now
                                    < self.entries@[k].1;
                            assert(self.entries@[k].0 == self.entries@[i as int].0);
                        }
                    }
                }
                let ghost prev = r@;
                r.push(e.0);
                proof {
                    assert forall|u: u64| #[trigger] r@.contains(u) <==> (prev.contains(u) || u
                        == e.0) by {
                        if prev.contains(u) || u == e.0 {
                            if u == e.0 {
                                assert(r@[r@.len() - 1] == u);
                            } else {
                                let k = choose|k: int| 0 <= k < prev.len() && prev[k] == u;
                                assert(r@[k] == u);
                            }
                        }
                        if r@.contains(u) {
                            let k = choose|k: int| 0 <= k < r@.len() && r@[k] == u;
                            if k < prev.len() {
                                assert(prev[k] == u);
                            }
                        }
                    }
                }
            }
            i = i + 1;
        }
        proof {
            assert forall|u: u64| #[trigger] r@.contains(u) <==> self.spec_is_active(u, now) by {
                if r@.contains(u) {
                    let k = choose|k: int|
                        0 <= k < n && (#[trigger] self.entries@[k]).0 == u && now
                            < self.entries@[k].1;
                    assert(self.spec_contains(u));
                    let k2 = choose|k2: int|
                        0 <= k2 < self.entries@.len() && (#[trigger] self.entries@[k2]).0 == u;
                    assert(k2 == k);
                }
                if self.spec_is_active(u, now) {
                    let k = choose|k: int|
                        0 <= k < self.entries@.len() && (#[trigger] self.entries@[k]).0 == u;
                    assert(self.spec_expiry(u) == self.entries@[k].1);
                    assert(now < self.entries@[k].1);
                }
            }
            assert(r@.to_set() =~= self.active_set(now));
        }
        r
    }

    /// Rebuilds a cache from a persisted snapshot: each listed user gets a
    /// fresh full window expiring at `now + ttl`. Duplicate identifiers in
    /// the snapshot collapse to one entry.
    pub fn from_users(users: &Vec<u64>, path: String, now: u64, ttl: u64) -> (c: SayCache)
        requires
            now + ttl <= u64::MAX,
        ensures
            c.wf(),
            c.spec_path() == path@,
            forall|u: u64| #[trigger]
                c.as_map().contains_key(u) <==> users@.contains(u),
            forall|u: u64| users@.contains(u) ==> c.as_map()[u] == now + ttl,
            c.user_count() <= users@.len(),
    {
        let mut c = SayCache::new(path);
        let n = users.len();
        let mut i: usize = 0;
        while i < n
            invariant
                i <= n,
                n == users@.len(),
                now + ttl <= u64::MAX,
                c.wf(),
                c.spec_path() == path@,
                c.user_count() <= i,
                forall|u: u64| #[trigger]
                    c.as_map().contains_key(u) <==> users@.subrange(0, i as int).contains(u),
                forall|u: u64|
                    #[trigger] c.as_map().contains_key(u) ==> c.as_map()[u] == now + ttl,
            decreases n - i,
        {
            let ghost pre = c.as_map();
            c.refresh(users[i], now, ttl);
            i = i + 1;
            proof {
                let seen = users@.subrange(0, i as int);
                assert forall|u: u64| #[trigger] c.as_map().contains_key(u) <==> seen.contains(
                    u,
                ) by {
                    if c.as_map().contains_key(u) {
                        if u == users@[i - 1] {
                            assert(seen[i - 1] == u);
                        } else {
                            assert(pre.contains_key(u));
                            let prev_seen = users@.subrange(0, i - 1);
                            assert(prev_seen.contains(u));
                            let k = choose|k: int|
                                0 <= k < prev_seen.len() && #[trigger] prev_seen[k] == u;
                            assert(seen[k] == u);
                        }
                    }
                    if seen.contains(u) {
                        let k = choose|k: int| 0 <= k < seen.len() && seen[k] == u;
                        if k < i - 1 {
                            assert(users@.subrange(0, i - 1)[k] == u);
                        }
                    }
                }
            }
        }
        proof {
            assert(users@.subrange(0, n as int) =~= users@);
            assert forall|u: u64| users@.contains(u) implies c.as_map()[u] == now + ttl by {
                assert(c.as_map().contains_key(u));
            }
        }
        c
    }
}

/// After a refresh of `user` at time `now` with window `ttl` — that is, on
/// any cache whose map holds `now + ttl` for `user` — the user is active at
/// every query time strictly before `now + ttl` (in particular throughout
/// `[now, now + ttl)`) and inactive at every query time from `now + ttl` on.
pub proof fn lemma_refresh_window(c: SayCache, user: u64, now: u64, ttl: u64, q: u64)
    requires
        now + ttl <= u64::MAX,
        c.as_map().contains_key(user),
        c.as_map()[user] == now + ttl,
    ensures
        c.spec_is_active(user, q) <==> q < now + ttl,
{
}

/// Revocation is immediate: once `user` is out of the map, no query time —
/// whatever window remained — sees them active.
pub proof fn lemma_revoke_immediate(c: SayCache, user: u64, q: u64)
    requires
        !c.as_map().contains_key(user),
    ensures
        !c.spec_is_active(user, q),
{
}

/// A well-formed cache is exactly as large as the set of members it holds:
/// one entry per distinct user, so the size never exceeds the number of
/// distinct users ever refreshed and not since revoked or expired away.
pub proof fn lemma_count_is_distinct_members(c: SayCache)
    requires
        c.wf(),
    ensures
        c.as_map().dom().finite(),
        c.as_map().dom().len() == c.user_count(),
{
    broadcast use vstd::seq_lib::seq_to_set_is_finite;

    let keys = c.entries@.map_values(|e: (u64, u64)| e.0);
    assert(keys.no_duplicates()) by {
        assert forall|i: int, j: int| 0 <= i < j < keys.len() implies keys[i] != keys[j] by {
            assert(c.entries@[i].0 != c.entries@[j].0);
        }
    }
    keys.unique_seq_to_set();
    assert(c.as_map().dom() =~= keys.to_set()) by {
        assert forall|u: u64| c.as_map().dom().contains(u) == keys.to_set().contains(u) by {
            if c.spec_contains(u) {
                let i = choose|i: int|
                    0 <= i < c.entries@.len() && (#[trigger] c.entries@[i]).0 == u;
                assert(keys[i] == u);
            }
            if keys.to_set().contains(u) {
                let i = choose|i: int| 0 <= i < keys.len() && keys[i] == u;
                assert(c.entries@[i].0 == u);
            }
        }
    }
}

/// Refreshing replaces rather than accumulates: refreshing the same user
/// twice yields the same map as refreshing once at the later time, so the
/// cache never holds two entries for one user.
pub proof fn lemma_refresh_idempotent(m: Map<u64, u64>, user: u64, e1: u64, e2: u64)
    ensures
        m.insert(user, e1).insert(user, e2) == m.insert(user, e2),
{
    assert(m.insert(user, e1).insert(user, e2) =~= m.insert(user, e2));
}

} // verus!
