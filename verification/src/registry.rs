//! The pending-challenge registry: at most one time-stamped challenge per
//! sender identity, modelled as a map from sender to challenge.
use vstd::prelude::*;
use crate::strutil::str_eq;

verus! {

/// One pending authentication challenge.
#[derive(Debug)]
pub struct ChallengeEntry {
    pub sender: String,
    pub token: String,
    pub reply_address: String,
    pub issued_at: u64,
}

/// Ghost model of a pending challenge (the sender is the key it sits
/// under).
#[verifier::ext_equal]
pub struct ChallengeView {
    pub token: Seq<char>,
    pub reply_address: Seq<char>,
    pub issued_at: u64,
}

impl View for ChallengeEntry {
    type V = ChallengeView;

    open spec fn view(&self) -> ChallengeView {
        ChallengeView {
            token: self.token@,
            reply_address: self.reply_address@,
            issued_at: self.issued_at,
        }
    }
}

/// Whether a challenge issued at `issued_at` has expired by `now` under the
/// given timeout.
pub open spec fn challenge_expired(c: ChallengeView, now: u64, timeout: u64) -> bool {
    c.issued_at + timeout < now
}

/// The registry after a sweep at `now`: only the challenges young enough to
/// survive remain.
pub open spec fn swept(m: Map<Seq<char>, ChallengeView>, now: u64, timeout: u64) -> Map<
    Seq<char>,
    ChallengeView,
> {
    Map::new(|k: Seq<char>| m.dom().contains(k) && !challenge_expired(m[k], now, timeout), |k: Seq<char>| m[k])
}

/// Sweeping twice at the same instant changes nothing the second time.
pub proof fn lemma_swept_idempotent(m: Map<Seq<char>, ChallengeView>, now: u64, timeout: u64)
    ensures
        swept(swept(m, now, timeout), now, timeout) == swept(m, now, timeout),
{
    assert(swept(swept(m, now, timeout), now, timeout) =~= swept(m, now, timeout));
}

spec fn has_sender(s: Seq<ChallengeEntry>, k: Seq<char>) -> bool {
    exists|i: int| 0 <= i < s.len() && s[i].sender@ == k
}

spec fn sender_index(s: Seq<ChallengeEntry>, k: Seq<char>) -> int {
    choose|i: int| 0 <= i < s.len() && s[i].sender@ == k
}

spec fn entries_map(s: Seq<ChallengeEntry>) -> Map<Seq<char>, ChallengeView> {
    Map::new(
        |k: Seq<char>| has_sender(s, k),
        |k: Seq<char>|
            if has_sender(s, k) {
                s[sender_index(s, k)]@
            } else {
                arbitrary()
            },
    )
}

/// The pending-challenge registry.
#[derive(Debug)]
pub struct ChallengeTable {
    entries: Vec<ChallengeEntry>,
}

impl View for ChallengeTable {
    type V = Map<Seq<char>, ChallengeView>;

    closed spec fn view(&self) -> Map<Seq<char>, ChallengeView> {
        entries_map(self.entries@)
    }
}

impl ChallengeTable {
    /// Senders are pairwise distinct, so the map model loses nothing.
    pub closed spec fn wf(self) -> bool {
        forall|i: int, j: int|
            0 <= i < j < self.entries@.len() ==> self.entries@[i].sender@ != self.entries@[j].sender@
    }

    proof fn lemma_lookup(self, k: Seq<char>, i: int)
        requires
            self.wf(),
            0 <= i < self.entries@.len(),
            self.entries@[i].sender@ == k,
        ensures
            has_sender(self.entries@, k),
            sender_index(self.entries@, k) == i,
            self@.dom().contains(k),
            self@[k] == self.entries@[i]@,
    {
        assert(has_sender(self.entries@, k));
        let ci = sender_index(self.entries@, k);
        if ci != i {
            assert(self.entries@[ci].sender@ != self.entries@[i].sender@);
        }
    }

    pub fn new() -> (r: ChallengeTable)
        ensures
            r.wf(),
            r@ == Map::<Seq<char>, ChallengeView>::empty(),
    {
        let r = ChallengeTable { entries: Vec::new() };
        proof {
            assert(r@ =~= Map::<Seq<char>, ChallengeView>::empty());
        }
        r
    }

    fn position_of(&self, sender: &str) -> (r: Option<usize>)
        requires
            self.wf(),
        ensures
            match r {
                Some(i) => i < self.entries@.len() && self.entries@[i as int].sender@ == sender@
                    && sender_index(self.entries@, sender@) == i && has_sender(
                    self.entries@,
                    sender@,
                ) && self@.dom().contains(sender@) && self@[sender@] == self.entries@[i as int]@,
                None => !has_sender(self.entries@, sender@) && !self@.dom().contains(sender@),
            },
    {
        let n = self.entries.len();
        let mut i: usize = 0;
        while i < n
            invariant
                0 <= i <= n,
                n == self.entries@.len(),
                self.wf(),
                forall|j: int| 0 <= j < i ==> self.entries@[j].sender@ != sender@,
            decreases n - i,
        {
            if str_eq(self.entries[i].sender.as_str(), sender) {
                proof {
                    self.lemma_lookup(sender@, i as int);
                }
                return Some(i);
            }
            i += 1;
        }
        None
    }

    /// Whether a challenge is pending for `sender`.
    pub fn contains(&self, sender: &str) -> (r: bool)
        requires
            self.wf(),
        ensures
            r == self@.dom().contains(sender@),
    {
        match self.position_of(sender) {
            Some(_) => true,
            None => false,
        }
    }

    /// The pending challenge of `sender`, when there is one.
    pub fn get(&self, sender: &str) -> (r: Option<&ChallengeEntry>)
        requires
            self.wf(),
        ensures
            match r {
                Some(c) => self@.dom().contains(sender@) && (*c)@ == self@[sender@] && c.sender@
                    == sender@,
                None => !self@.dom().contains(sender@),
            },
    {
        match self.position_of(sender) {
            Some(i) => Some(&self.entries[i]),
            None => None,
        }
    }

    /// Records a challenge for `sender`, replacing any pending one.
    pub fn put(&mut self, sender: String, token: String, reply_address: String, issued_at: u64)
        requires
            old(self).wf(),
        ensures
            final(self).wf(),
            final(self)@ == old(self)@.insert(
                sender@,
                (ChallengeView { token: token@, reply_address: reply_address@, issued_at }),
            ),
    {
        let entry = ChallengeEntry { sender, token, reply_address, issued_at };
        let ghost pre = self.entries@;
        let ghost key = entry.sender@;
        let ghost cv = entry@;
        match self.position_of(entry.sender.as_str()) {
            Some(i) => {
                *vstd::std_specs::vec::vec_index_mut(&mut self.entries, i) = entry;
                proof {
                    assert(self.entries@ == pre.update(i as int, self.entries@[i as int]));
                    self.lemma_map_update(pre, i as int, key, cv);
                }
            },
            None => {
                self.entries.push(entry);
                proof {
                    assert(self.entries@ == pre.push(self.entries@.last()));
                    self.lemma_map_push(pre, key, cv);
                }
            },
        }
    }

    proof fn lemma_map_update(self, pre: Seq<ChallengeEntry>, i: int, key: Seq<char>, cv: ChallengeView)
        requires
            0 <= i < pre.len(),
            self.entries@ == pre.update(i, self.entries@[i]),
            self.entries@[i].sender@ == key,
            self.entries@[i]@ == cv,
            pre[i].sender@ == key,
            forall|a: int, b: int| 0 <= a < b < pre.len() ==> pre[a].sender@ != pre[b].sender@,
        ensures
            self.wf(),
            entries_map(self.entries@) == entries_map(pre).insert(key, cv),
    {
        let s = self.entries@;
        assert(forall|j: int| 0 <= j < s.len() ==> (#[trigger] s[j]).sender@ == pre[j].sender@);
        assert(self.wf());
        let m1 = entries_map(s);
        let m2 = entries_map(pre).insert(key, cv);
        assert forall|k: Seq<char>| #[trigger] m1.dom().contains(k) implies m2.dom().contains(k)
            && m1[k] == m2[k] by {
            let j = sender_index(s, k);
            assert(0 <= j < s.len() && s[j].sender@ == k);
            if k == key {
                self.lemma_lookup(k, i);
            } else {
                assert(j != i);
                assert(pre[j].sender@ == k);
                self.lemma_lookup(k, j);
                assert(has_sender(pre, k));
                let pj = sender_index(pre, k);
                if pj != j {
                    assert(pre[pj].sender@ != pre[j].sender@);
                }
                assert(m2[k] == pre[j]@);
                assert(s[j] == pre[j]);
            }
        }
        assert forall|k: Seq<char>| #[trigger] m2.dom().contains(k) implies m1.dom().contains(k) by {
            if k == key {
                assert(s[i].sender@ == key);
                assert(has_sender(s, k));
            } else {
                let pj = sender_index(pre, k);
                assert(0 <= pj < pre.len() && pre[pj].sender@ == k);
                assert(s[pj].sender@ == k);
                assert(has_sender(s, k));
            }
        }
        assert(m1 =~= m2);
    }

    proof fn lemma_map_push(self, pre: Seq<ChallengeEntry>, key: Seq<char>, cv: ChallengeView)
        requires
            self.entries@ == pre.push(self.entries@.last()),
            self.entries@.len() == pre.len() + 1,
            self.entries@.last().sender@ == key,
            self.entries@.last()@ == cv,
            !has_sender(pre, key),
            forall|a: int, b: int| 0 <= a < b < pre.len() ==> pre[a].sender@ != pre[b].sender@,
        ensures
            self.wf(),
            entries_map(self.entries@) == entries_map(pre).insert(key, cv),
    {
        let s = self.entries@;
        let len = pre.len();
        assert(forall|j: int| 0 <= j < len ==> (#[trigger] s[j]) == pre[j]);
        assert forall|a: int, b: int| 0 <= a < b < s.len() implies s[a].sender@ != s[b].sender@ by {
            if b == len {
                if pre[a].sender@ == key {
                    assert(has_sender(pre, key));
                }
            }
        }
        assert(self.wf());
        let m1 = entries_map(s);
        let m2 = entries_map(pre).insert(key, cv);
        assert forall|k: Seq<char>| #[trigger] m1.dom().contains(k) implies m2.dom().contains(k)
            && m1[k] == m2[k] by {
            let j = sender_index(s, k);
            assert(0 <= j < s.len() && s[j].sender@ == k);
            if k == key {
                self.lemma_lookup(k, len as int);
            } else {
                assert(j != len);
                assert(pre[j].sender@ == k);
                assert(has_sender(pre, k));
                let pj = sender_index(pre, k);
                if pj != j {
                    assert(pre[pj].sender@ != pre[j].sender@);
                }
                self.lemma_lookup(k, j);
                assert(m2[k] == pre[j]@);
            }
        }
        assert forall|k: Seq<char>| #[trigger] m2.dom().contains(k) implies m1.dom().contains(k) by {
            if k == key {
                assert(s[len as int].sender@ == key);
                assert(has_sender(s, k));
            } else {
                let pj = sender_index(pre, k);
                assert(s[pj].sender@ == k);
                assert(has_sender(s, k));
            }
        }
        assert(m1 =~= m2);
    }

    /// Drops the pending challenge of `sender`, if any.
    pub fn take_out(&mut self, sender: &str)
        requires
            old(self).wf(),
        ensures
            final(self).wf(),
            final(self)@ == old(self)@.remove(sender@),
    {
        let ghost pre = self.entries@;
        match self.position_of(sender) {
            Some(i) => {
                let _ = self.entries.remove(i);
                proof {
                    assert(self.entries@ == pre.remove(i as int));
                    self.lemma_map_remove(pre, i as int, sender@);
                }
            },
            None => {
                proof {
                    assert(old(self)@.remove(sender@) =~= old(self)@);
                }
            },
        }
    }

    proof fn lemma_map_remove(self, pre: Seq<ChallengeEntry>, i: int, key: Seq<char>)
        requires
            0 <= i < pre.len(),
            self.entries@ == pre.remove(i),
            pre[i].sender@ == key,
            forall|a: int, b: int| 0 <= a < b < pre.len() ==> pre[a].sender@ != pre[b].sender@,
        ensures
            self.wf(),
            entries_map(self.entries@) == entries_map(pre).remove(key),
    {
        let s = self.entries@;
        let len = pre.len();
        assert(s.len() == len - 1);
        assert(forall|j: int|
            0 <= j < len - 1 ==> (#[trigger] s[j]) == pre[
                if j < i {
                    j
                } else {
                    j + 1
                }
            ]);
        assert forall|a: int, b: int| 0 <= a < b < s.len() implies s[a].sender@ != s[b].sender@ by {
            let a2: int = if a < i { a } else { a + 1 };
            let b2: int = if b < i { b } else { b + 1 };
            assert(pre[a2].sender@ != pre[b2].sender@);
        }
        assert(self.wf());
        let m1 = entries_map(s);
        let m2 = entries_map(pre).remove(key);
        assert forall|k: Seq<char>| #[trigger] m1.dom().contains(k) implies m2.dom().contains(k)
            && m1[k] == m2[k] by {
            let j = sender_index(s, k);
            assert(0 <= j < s.len() && s[j].sender@ == k);
            let j2: int = if j < i { j } else { j + 1 };
            assert(pre[j2].sender@ == k);
            assert(j2 != i);
            assert(k != key);
            assert(has_sender(pre, k));
            let pj = sender_index(pre, k);
            if pj != j2 {
                assert(pre[pj].sender@ != pre[j2].sender@);
            }
            self.lemma_lookup(k, j);
            assert(m2[k] == pre[j2]@);
        }
        assert forall|k: Seq<char>| #[trigger] m2.dom().contains(k) implies m1.dom().contains(k) by {
            let pj = sender_index(pre, k);
            assert(0 <= pj < len && pre[pj].sender@ == k);
            assert(k != key);
            assert(pj != i);
            let j2: int = if pj < i { pj } else { pj - 1 };
            assert(s[j2].sender@ == k);
            assert(has_sender(s, k));
        }
        assert(m1 =~= m2);
    }

    /// Purges every challenge older than the timeout, judged at `now`.
    /// Callable repeatedly and safely: a second sweep at the same instant
    /// changes nothing.
    pub fn cleanup_expired(&mut self, now: u64, timeout: u64)
        requires
            old(self).wf(),
        ensures
            final(self).wf(),
            final(self)@ == swept(old(self)@, now, timeout),
    {
        let ghost pre = self.entries@;
        let n = self.entries.len();
        let mut kept: Vec<ChallengeEntry> = Vec::new();
        let mut i: usize = 0;
        while i < n
            invariant
                0 <= i <= n,
                n == self.entries@.len(),
                self.entries@ == pre,
                old(self).wf(),
                self.wf(),
                kept@.len() <= i,
                forall|a: int, b: int|
                    0 <= a < b < kept@.len() ==> kept@[a].sender@ != kept@[b].sender@,
                forall|a: int|
                    0 <= a < kept@.len() ==> has_sender(pre.take(i as int), (#[trigger] kept@[a]).sender@),
                forall|a: int|
                    0 <= a < kept@.len() ==> !challenge_expired((#[trigger] kept@[a])@, now, timeout),
                forall|j: int|
                    0 <= j < i && !challenge_expired(pre[j]@, now, timeout) ==> has_sender(
                        kept@,
                        (#[trigger] pre[j]).sender@,
                    ),
                forall|a: int|
                    0 <= a < kept@.len() ==> (#[trigger] kept@[a])
                        == pre[sender_index(pre, kept@[a].sender@)],
            decreases n - i,
        {
            let keep = {
                let e = &self.entries[i];
                let age_ok = e.issued_at.checked_add(timeout);
                match age_ok {
                    Some(limit) => limit >= now,
                    None => true,
                }
            };
            if keep {
                let e = &self.entries[i];
                let copied = ChallengeEntry {
                    sender: e.sender.clone(),
                    token: e.token.clone(),
                    reply_address: e.reply_address.clone(),
                    issued_at: e.issued_at,
                };
                proof {
                    self.lemma_lookup(copied.sender@, i as int);
                    assert forall|a: int| 0 <= a < kept@.len() implies (#[trigger] kept@[a]).sender@
                        != copied.sender@ by {
                        let src = sender_index(pre, kept@[a].sender@);
                        assert(has_sender(pre.take(i as int), kept@[a].sender@));
                        let w = choose|w: int|
                            0 <= w < pre.take(i as int).len() && pre.take(i as int)[w].sender@
                                == kept@[a].sender@;
                        assert(pre[w].sender@ == kept@[a].sender@);
                        if pre[w].sender@ == copied.sender@ {
                            assert(pre[w].sender@ != pre[i as int].sender@);
                        }
                    }
                }
                let ghost kept_pre = kept@;
                kept.push(copied);
                proof {
                    assert(forall|a: int| 0 <= a < kept_pre.len() ==> kept@[a] == kept_pre[a]);
                    assert forall|a: int| 0 <= a < kept@.len() implies has_sender(
                        pre.take(i + 1),
                        (#[trigger] kept@[a]).sender@,
                    ) by {
                        if a < kept@.len() - 1 {
                            let w = choose|w: int|
                                0 <= w < pre.take(i as int).len() && pre.take(i as int)[w].sender@
                                    == kept@[a].sender@;
                            assert(pre.take(i + 1)[w].sender@ == kept@[a].sender@);
                        } else {
                            assert(pre.take(i + 1)[i as int].sender@ == kept@[a].sender@);
                        }
                    }
                    assert(kept@[kept@.len() - 1] == pre[sender_index(pre, kept@[kept@.len() - 1].sender@)]);
                    assert forall|j: int|
                        0 <= j < i + 1 && !challenge_expired(pre[j]@, now, timeout) implies has_sender(
                        kept@,
                        (#[trigger] pre[j]).sender@,
                    ) by {
                        if j < i {
                            assert(has_sender(kept_pre, pre[j].sender@));
                            let w = choose|w: int|
                                0 <= w < kept_pre.len() && kept_pre[w].sender@ == pre[j].sender@;
                            assert(kept@[w].sender@ == pre[j].sender@);
                        } else {
                            assert(kept@[kept@.len() - 1].sender@ == pre[j].sender@);
                        }
                    }
                }
            } else {
                proof {
                    assert(challenge_expired(pre[i as int]@, now, timeout));
                    assert forall|a: int| 0 <= a < kept@.len() implies has_sender(
                        pre.take(i + 1),
                        (#[trigger] kept@[a]).sender@,
                    ) by {
                        let w = choose|w: int|
                            0 <= w < pre.take(i as int).len() && pre.take(i as int)[w].sender@
                                == kept@[a].sender@;
                        assert(pre.take(i + 1)[w].sender@ == kept@[a].sender@);
                    }
                    assert forall|j: int|
                        0 <= j < i + 1 && !challenge_expired(pre[j]@, now, timeout) implies has_sender(
                        kept@,
                        (#[trigger] pre[j]).sender@,
                    ) by {}
                }
            }
            i += 1;
        }
        self.entries = kept;
        proof {
            let m1 = entries_map(self.entries@);
            let m2 = swept(entries_map(pre), now, timeout);
            let s = self.entries@;
            assert forall|k: Seq<char>| #[trigger] m1.dom().contains(k) implies m2.dom().contains(k)
                && m1[k] == m2[k] by {
                let j = sender_index(s, k);
                assert(0 <= j < s.len() && s[j].sender@ == k);
                let src = sender_index(pre, k);
                assert(s[j] == pre[sender_index(pre, s[j].sender@)]);
                assert(has_sender(pre.take(n as int), k));
                let w = choose|w: int|
                    0 <= w < pre.take(n as int).len() && pre.take(n as int)[w].sender@ == k;
                assert(pre[w].sender@ == k);
                assert(has_sender(pre, k));
                old(self).lemma_lookup(k, src);
                assert(m1[k] == s[j]@);
                assert(s[j] == pre[src]);
                assert(!challenge_expired(pre[src]@, now, timeout));
            }
            assert forall|k: Seq<char>| #[trigger] m2.dom().contains(k) implies m1.dom().contains(k) by {
                let src = sender_index(pre, k);
                assert(0 <= src < pre.len() && pre[src].sender@ == k);
                assert(entries_map(pre)[k] == pre[src]@) by {
                    old(self).lemma_lookup(k, src);
                }
                assert(!challenge_expired(pre[src]@, now, timeout));
                assert(has_sender(kept@, k));
            }
            assert(m1 =~= m2);
        }
    }
}

} // verus!
