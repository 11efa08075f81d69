//! Per-client throttling of pixel writes: each identity may be admitted once
//! per cooldown, measured from its last admitted write.

use vstd::prelude::*;

verus! {

/// The table that a sequence of `(identity, last admitted time)` entries describes.
pub open spec fn table_of(s: Seq<(Seq<char>, u64)>) -> Map<Seq<char>, u64>
    decreases s.len(),
{
    if s.len() == 0 {
        Map::empty()
    } else {
        table_of(s.drop_last()).insert(s.last().0, s.last().1)
    }
}

/// No identity occurs twice.
pub open spec fn distinct_keys(s: Seq<(Seq<char>, u64)>) -> bool {
    forall|i: int, j: int| 0 <= i < j < s.len() ==> s[i].0 != s[j].0
}

/// Whether a write by an identity last admitted at `last` (if ever) is
/// admitted at time `now` (milliseconds) under a cooldown in seconds. A
/// clock that went back admits.
pub open spec fn admits(last: Option<u64>, now: u64, cooldown_secs: u32) -> bool {
    match last {
        None => true,
        Some(t) => now < t || now - t >= cooldown_secs * 1000,
    }
}

proof fn lemma_table_lookup(s: Seq<(Seq<char>, u64)>, k: Seq<char>)
    requires
        distinct_keys(s),
    ensures
        table_of(s).contains_key(k) <==> exists|i: int| 0 <= i < s.len() && s[i].0 == k,
        forall|i: int| 0 <= i < s.len() && s[i].0 == k ==> table_of(s)[k] == s[i].1,
    decreases s.len(),
{
    if s.len() > 0 {
        let p = s.drop_last();
        assert(distinct_keys(p));
        lemma_table_lookup(p, k);
        if table_of(s).contains_key(k) {
            if k == s.last().0 {
                assert(s[s.len() - 1].0 == k);
            } else {
                let i = choose|i: int| 0 <= i < p.len() && p[i].0 == k;
                assert(s[i].0 == k);
            }
        }
        if exists|i: int| 0 <= i < s.len() && s[i].0 == k {
            let i = choose|i: int| 0 <= i < s.len() && s[i].0 == k;
            if i < s.len() - 1 {
                assert(p[i].0 == k);
            }
        }
        assert forall|i: int| 0 <= i < s.len() && s[i].0 == k implies table_of(s)[k] == s[i].1 by {
            if i < s.len() - 1 {
                assert(p[i].0 == k);
            }
        }
    }
}

proof fn lemma_table_update(s: Seq<(Seq<char>, u64)>, i: int, v: u64)
    requires
        distinct_keys(s),
        0 <= i < s.len(),
    ensures
        distinct_keys(s.update(i, (s[i].0, v))),
        table_of(s.update(i, (s[i].0, v))) == table_of(s).insert(s[i].0, v),
    decreases s.len(),
{
    let u = s.update(i, (s[i].0, v));
    assert(distinct_keys(u));
    if i == s.len() - 1 {
        assert(u.drop_last() =~= s.drop_last());
        assert(table_of(u) =~= table_of(s).insert(s[i].0, v));
    } else {
        let p = s.drop_last();
        assert(distinct_keys(p));
        lemma_table_update(p, i, v);
        assert(u.drop_last() =~= p.update(i, (p[i].0, v)));
        assert(s.last().0 != s[i].0);
        assert(table_of(u) =~= table_of(s).insert(s[i].0, v));
    }
}

/// Over two calls for one identity: the first call for an identity never
/// seen is admitted; once admitted at `now`, a call at the same instant is
/// refused under any positive cooldown, and a call a whole cooldown or more
/// later is admitted.
pub proof fn lemma_throttle(
    l0: &RateLimiter,
    l1: &RateLimiter,
    identity: Seq<char>,
    now: u64,
    later: u64,
    cooldown_secs: u32,
)
    requires
        !l0.view().contains_key(identity),
        l1.view() == l0.view().insert(identity, now),
    ensures
        admits(l0.last_of(identity), now, cooldown_secs),
        cooldown_secs > 0 ==> !admits(l1.last_of(identity), now, cooldown_secs),
        later >= now && later - now >= cooldown_secs * 1000 ==> admits(
            l1.last_of(identity),
            later,
            cooldown_secs,
        ),
{
}

/// The last admitted write time of each identity seen.
pub struct RateLimiter {
    entries: Vec<(String, u64)>,
}

impl RateLimiter {
    /// The entries, identities by their characters.
    pub closed spec fn entries(&self) -> Seq<(Seq<char>, u64)> {
        self.entries@.map_values(|e: (String, u64)| (e.0@, e.1))
    }

    /// Each identity has at most one entry.
    pub open spec fn wf(&self) -> bool {
        distinct_keys(self.entries())
    }

    /// Last admitted write time of each identity seen.
    pub open spec fn view(&self) -> Map<Seq<char>, u64> {
        table_of(self.entries())
    }

    /// Last admitted write time of an identity, if it was ever admitted.
    pub open spec fn last_of(&self, identity: Seq<char>) -> Option<u64> {
        if self.view().contains_key(identity) {
            Some(self.view()[identity])
        } else {
            None
        }
    }

    /// A limiter that has seen nobody.
    pub fn new() -> (r: RateLimiter)
        ensures
            r.wf(),
            r.view() == Map::<Seq<char>, u64>::empty(),
    {
        let r = RateLimiter { entries: Vec::new() };
        assert(r.entries() =~= Seq::<(Seq<char>, u64)>::empty());
        r
    }

    /// Last admitted write time of `identity`, if any.
    pub fn last_seen(&self, identity: &String) -> (r: Option<u64>)
        requires
            self.wf(),
        ensures
            r == self.last_of(identity@),
    {
        match self.find(identity) {
            Some(i) => Some(self.entries[i].1),
            None => None,
        }
    }

    fn find(&self, identity: &String) -> (r: Option<usize>)
        requires
            self.wf(),
        ensures
            r matches Some(i) ==> i < self.entries@.len() && self.entries()[i as int].0 == identity@
                && self.view().contains_key(identity@) && self.view()[identity@] == self.entries()[i as int].1,
            r is None ==> !self.view().contains_key(identity@),
    {
        proof {
            lemma_table_lookup(self.entries(), identity@);
        }
        let mut i: usize = 0;
        while i < self.entries.len()
            invariant
                i <= self.entries@.len(),
                self.wf(),
                self.entries().len() == self.entries@.len(),
                forall|j: int| 0 <= j < i ==> self.entries()[j].0 != identity@,
            decreases self.entries@.len() - i,
        {
            assert(self.entries()[i as int] == (self.entries@[i as int].0@, self.entries@[i as int].1));
            if self.entries[i].0 == *identity {
                assert(self.entries()[i as int].0 == identity@);
                proof {
                    lemma_table_lookup(self.entries(), identity@);
                }
                assert(self.view().contains_key(identity@));
                assert(self.view()[identity@] == self.entries()[i as int].1);
                return Some(i);
            }
            i = i + 1;
        }
        proof {
            lemma_table_lookup(self.entries(), identity@);
        }
        None
    }

    /// Decides whether `identity` may write at time `now` (milliseconds) under
    /// a cooldown of `cooldown_secs` seconds, and records `now` as its last
    /// admitted time when it may.
    pub fn is_allowed(&mut self, identity: &String, now: u64, cooldown_secs: u32) -> (r: bool)
        requires
            old(self).wf(),
        ensures
            final(self).wf(),
            r == admits(old(self).last_of(identity@), now, cooldown_secs),
            r ==> final(self).view() == old(self).view().insert(identity@, now),
            !r ==> *final(self) == *old(self),
    {
        let cooldown_ms: u64 = cooldown_secs as u64 * 1000;
        match self.find(identity) {
            Some(i) => {
                let last = self.entries[i].1;
                if now < last || now - last >= cooldown_ms {
                    let ghost before = self.entries();
                    proof {
                        lemma_table_update(before, i as int, now);
                    }
                    let key = self.entries[i].0.clone();
                    self.entries.set(i, (key, now));
                    assert(self.entries() =~= before.update(i as int, (before[i as int].0, now)));
                    true
                } else {
                    false
                }
            },
            None => {
                let ghost before = self.entries();
                proof {
                    lemma_table_lookup(before, identity@);
                }
                self.entries.push((identity.clone(), now));
                assert(self.entries() =~= before.push((identity@, now)));
                assert(self.entries().drop_last() =~= before);
                assert forall|i: int, j: int| 0 <= i < j < self.entries().len() implies self.entries()[i].0
                    != self.entries()[j].0 by {
                    if j == before.len() {
                        assert(before[i].0 != identity@);
                    }
                }
                true
            },
        }
    }
}

} // verus!
