//! The subscription registry: which sessions want notifications of which keys.
//!
//! A session is known by a `u64` identity that its server gives out once, so
//! two sessions never compare equal, whatever their state.

use vstd::prelude::*;

verus! {

/// A subscription as the contracts see it: the key and the session.
pub open spec fn entry_view(e: (String, u64)) -> (Seq<char>, u64) {
    (e.0@, e.1)
}

/// Whether some pair of `s` is seen as `q`.
pub open spec fn listed(s: Seq<(String, u64)>, q: (Seq<char>, u64)) -> bool {
    exists|j: int| 0 <= j < s.len() && entry_view(#[trigger] s[j]) == q
}

/// No two pairs of `s` are seen as the same subscription.
pub open spec fn distinct(s: Seq<(String, u64)>) -> bool {
    forall|a: int, b: int|
        0 <= a < b < s.len() ==> entry_view(#[trigger] s[a]) != entry_view(#[trigger] s[b])
}

proof fn lemma_listed_push(s: Seq<(String, u64)>, x: (String, u64), q: (Seq<char>, u64))
    ensures
        listed(s.push(x), q) == (listed(s, q) || entry_view(x) == q),
{
    if listed(s, q) {
        let j = choose|j: int| 0 <= j < s.len() && entry_view(#[trigger] s[j]) == q;
        assert(s.push(x)[j] == s[j]);
    }
    if entry_view(x) == q {
        assert(s.push(x)[s.len() as int] == x);
    }
    if listed(s.push(x), q) {
        let j = choose|j: int| 0 <= j < s.len() + 1 && entry_view(#[trigger] s.push(x)[j]) == q;
        if j < s.len() {
            assert(s.push(x)[j] == s[j]);
        }
    }
}

proof fn lemma_distinct_push(s: Seq<(String, u64)>, x: (String, u64))
    requires
        distinct(s),
        !listed(s, entry_view(x)),
    ensures
        distinct(s.push(x)),
{
    assert forall|a: int, b: int| 0 <= a < b < s.len() + 1 implies entry_view(#[trigger] s.push(x)[a])
        != entry_view(#[trigger] s.push(x)[b]) by {
        assert(s.push(x)[a] == s[a]);
        if b < s.len() {
            assert(s.push(x)[b] == s[b]);
        } else {
            assert(s.push(x)[b] == x);
        }
    }
}

/// Key → set of sessions, held as a list of distinct (key, session) pairs.
pub struct Subscriptions {
    entries: Vec<(String, u64)>,
}

impl View for Subscriptions {
    type V = Set<(Seq<char>, u64)>;

    closed spec fn view(&self) -> Set<(Seq<char>, u64)> {
        Set::new(|p: (Seq<char>, u64)| listed(self.entries@, p))
    }
}

impl Subscriptions {
    /// No pair is listed twice.
    pub closed spec fn wf(&self) -> bool {
        distinct(self.entries@)
    }

    /// The sessions subscribed to `key`.
    pub open spec fn subscribers_of(&self, key: Seq<char>) -> Set<u64> {
        Set::new(|c: u64| self@.contains((key, c)))
    }

    /// An empty registry.
    pub fn new() -> (r: Self)
        ensures
            r.wf(),
            r@ == Set::<(Seq<char>, u64)>::empty(),
    {
        let r = Subscriptions { entries: Vec::new() };
        assert(r@ =~= Set::<(Seq<char>, u64)>::empty());
        r
    }

    /// Whether `client` is subscribed to `key`.
    pub fn contains(&self, client: u64, key: &String) -> (r: bool)
        ensures
            r == self@.contains((key@, client)),
    {
        let mut i: usize = 0;
        while i < self.entries.len()
            invariant
                i <= self.entries@.len(),
                forall|j: int| 0 <= j < i ==> entry_view(#[trigger] self.entries@[j]) != (key@, client),
            decreases self.entries@.len() - i,
        {
            let e = &self.entries[i];
            if e.1 == client && e.0 == *key {
                assert(entry_view(self.entries@[i as int]) == (key@, client));
                return true;
            }
            i = i + 1;
        }
        false
    }

    /// Subscribes `client` to `key`; `true` iff it was not subscribed yet.
    pub fn subscribe(&mut self, client: u64, key: String) -> (r: bool)
        requires
            old(self).wf(),
        ensures
            final(self).wf(),
            r == !old(self)@.contains((key@, client)),
            final(self)@ == old(self)@.insert((key@, client)),
    {
        if self.contains(client, &key) {
            assert(self@.insert((key@, client)) =~= self@);
            return false;
        }
        let ghost before = self.entries@;
        let ghost x = (key, client);
        proof {
            lemma_distinct_push(before, x);
            assert forall|q: (Seq<char>, u64)| listed(before.push(x), q) == (listed(before, q) || entry_view(x) == q) by {
                lemma_listed_push(before, x, q);
            }
        }
        self.entries.push((key, client));
        assert(self@ =~= old(self)@.insert(entry_view(x)));
        true
    }

    /// Unsubscribes `client` from `key`; `true` iff it was subscribed.
    pub fn unsubscribe(&mut self, client: u64, key: &String) -> (r: bool)
        requires
            old(self).wf(),
        ensures
            final(self).wf(),
            r == old(self)@.contains((key@, client)),
            final(self)@ == old(self)@.remove((key@, client)),
    {
        let r = self.drop_pairs(client, Some(key));
        proof {
            if r {
                let q = choose|q: (Seq<char>, u64)| old(self)@.contains(q) && picks(Some(key), client, q);
                assert(q == (key@, client));
            }
            if old(self)@.contains((key@, client)) {
                assert(picks(Some(key), client, (key@, client)));
            }
        }
        assert(self@ =~= old(self)@.remove((key@, client)));
        r
    }

    /// Removes every subscription of `client`, whatever its key.
    pub fn unsubscribe_all(&mut self, client: u64)
        requires
            old(self).wf(),
        ensures
            final(self).wf(),
            final(self)@ == old(self)@.filter(|q: (Seq<char>, u64)| q.1 != client),
            forall|k: Seq<char>| !final(self)@.contains((k, client)),
    {
        self.drop_pairs(client, None);
        assert(self@ =~= old(self)@.filter(|q: (Seq<char>, u64)| q.1 != client));
    }

    /// The sessions subscribed to `key`, each once.
    pub fn subscribers(&self, key: &String) -> (r: Vec<u64>)
        requires
            self.wf(),
        ensures
            r@.no_duplicates(),
            forall|c: u64| r@.contains(c) == self@.contains((key@, c)),
    {
        let mut r: Vec<u64> = Vec::new();
        let mut i: usize = 0;
        while i < self.entries.len()
            invariant
                i <= self.entries@.len(),
                self.wf(),
                r@.no_duplicates(),
                forall|c: u64| #[trigger] r@.contains(c) == listed(self.entries@.take(i as int), (key@, c)),
            decreases self.entries@.len() - i,
        {
            let e = &self.entries[i];
            let ghost x = self.entries@[i as int];
            let ghost prefix = self.entries@.take(i as int);
            assert(self.entries@.take(i + 1) =~= prefix.push(x));
            assert forall|q: (Seq<char>, u64)| #[trigger] listed(self.entries@.take(i + 1), q) == (listed(prefix, q) || entry_view(x) == q) by {
                lemma_listed_push(prefix, x, q);
            }
            if e.0 == *key {
                proof {
                    if r@.contains(e.1) {
                        let m = choose|m: int| 0 <= m < prefix.len() && entry_view(#[trigger] prefix[m]) == (key@, e.1);
                        assert(self.entries@[m] == prefix[m]);
                    }
                }
                let ghost old_r = r@;
                r.push(e.1);
                assert forall|c: u64| #[trigger] r@.contains(c) == listed(self.entries@.take(i + 1), (key@, c)) by {
                    if c != e.1 {
                        assert(r@.contains(c) == old_r.contains(c)) by {
                            if r@.contains(c) {
                                let j = choose|j: int| 0 <= j < r@.len() && r@[j] == c;
                                assert(old_r[j] == c);
                            }
                            if old_r.contains(c) {
                                let j = choose|j: int| 0 <= j < old_r.len() && old_r[j] == c;
                                assert(r@[j] == c);
                            }
                        }
                        assert(old_r.contains(c) == listed(prefix, (key@, c)));
                    } else {
                        assert(r@[r@.len() - 1] == c);
                    }
                }
            }
            i = i + 1;
        }
        assert(self.entries@.take(i as int) =~= self.entries@);
        r
    }

    /// Keeps the pairs that `drop_it` does not pick: those of `key` and
    /// `client`, or with no key given, every pair of `client`. Says whether
    /// one was dropped.
    fn drop_pairs(&mut self, client: u64, key: Option<&String>) -> (r: bool)
        requires
            old(self).wf(),
        ensures
            final(self).wf(),
            r == exists|q: (Seq<char>, u64)| old(self)@.contains(q) && picks(key, client, q),
            final(self)@ == old(self)@.filter(|q: (Seq<char>, u64)| !picks(key, client, q)),
    {
        let ghost old_entries = self.entries@;
        let mut kept: Vec<(String, u64)> = Vec::new();
        let mut found = false;
        let mut i: usize = 0;
        while i < self.entries.len()
            invariant
                i <= self.entries@.len(),
                self.entries@ == old_entries,
                distinct(old_entries),
                distinct(kept@),
                found == exists|q: (Seq<char>, u64)| listed(old_entries.take(i as int), q) && picks(key, client, q),
                forall|q: (Seq<char>, u64)|
                    #[trigger] listed(kept@, q) == (!picks(key, client, q) && listed(old_entries.take(i as int), q)),
            decreases self.entries@.len() - i,
        {
            let e = &self.entries[i];
            let ghost x = old_entries[i as int];
            let ghost prefix = old_entries.take(i as int);
            assert(old_entries.take(i + 1) =~= prefix.push(x));
            assert forall|q: (Seq<char>, u64)| #[trigger] listed(old_entries.take(i + 1), q) == (listed(prefix, q) || entry_view(x) == q) by {
                lemma_listed_push(prefix, x, q);
            }
            let same_client = e.1 == client;
            let hit = match key {
                Some(k) => same_client && e.0 == *k,
                None => same_client,
            };
            assert(hit == picks(key, client, entry_view(x)));
            if hit {
                found = true;
                assert(listed(old_entries.take(i + 1), entry_view(x)));
            } else {
                assert((exists|q: (Seq<char>, u64)| listed(old_entries.take(i + 1), q) && picks(key, client, q))
                    == (exists|q: (Seq<char>, u64)| listed(prefix, q) && picks(key, client, q))) by {
                    if exists|q: (Seq<char>, u64)| listed(old_entries.take(i + 1), q) && picks(key, client, q) {
                        let q = choose|q: (Seq<char>, u64)| listed(old_entries.take(i + 1), q) && picks(key, client, q);
                        assert(listed(prefix, q));
                    }
                    if exists|q: (Seq<char>, u64)| listed(prefix, q) && picks(key, client, q) {
                        let q = choose|q: (Seq<char>, u64)| listed(prefix, q) && picks(key, client, q);
                        assert(listed(old_entries.take(i + 1), q));
                    }
                }
                proof {
                    if listed(kept@, entry_view(x)) {
                        let m = choose|m: int| 0 <= m < prefix.len() && entry_view(#[trigger] prefix[m]) == entry_view(x);
                        assert(old_entries[m] == prefix[m]);
                    }
                    lemma_distinct_push(kept@, x);
                    assert forall|q: (Seq<char>, u64)| #[trigger] listed(kept@.push(x), q) == (listed(kept@, q) || entry_view(x) == q) by {
                        lemma_listed_push(kept@, x, q);
                    }
                }
                kept.push((e.0.clone(), e.1));
            }
            i = i + 1;
        }
        assert(old_entries.take(i as int) =~= old_entries);
        self.entries = kept;
        assert(self@ =~= old(self)@.filter(|q: (Seq<char>, u64)| !picks(key, client, q)));
        found
    }
}

/// Whether the subscription `q` is one that `drop_pairs` removes.
pub open spec fn picks(key: Option<&String>, client: u64, q: (Seq<char>, u64)) -> bool {
    q.1 == client && match key {
        Some(k) => q.0 == k@,
        None => true,
    }
}

} // verus!
