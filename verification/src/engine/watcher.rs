//! Debouncing of file-system change events: changed paths are collected
//! until no event has come for a quiet period, then handed out once for
//! re-indexing.
use vstd::prelude::*;

verus! {

/// Quiet period, in milliseconds, after the last event before a flush.
pub const DEBOUNCE_MS: u64 = 1000;

/// Changed paths waiting for the quiet period to pass.
pub struct Debouncer {
    pending: Vec<String>,
    last: u64,
}

/// The characters of each string.
pub open spec fn texts(v: Seq<String>) -> Seq<Seq<char>> {
    v.map_values(|s: String| s@)
}

impl Debouncer {
    /// The pending paths.
    pub closed spec fn pending(&self) -> Set<Seq<char>> {
        texts(self.pending@).to_set()
    }

    /// Time (milliseconds, monotonic clock) of the last event.
    pub closed spec fn last(&self) -> u64 {
        self.last
    }

    /// No path is pending twice.
    pub closed spec fn wf(&self) -> bool {
        texts(self.pending@).no_duplicates()
    }

    /// An empty debouncer at time `now`.
    pub fn new(now: u64) -> (d: Self)
        ensures
            d.wf(),
            d.pending() == Set::<Seq<char>>::empty(),
            d.last() == now,
    {
        let d = Debouncer { pending: Vec::new(), last: now };
        assert(texts(d.pending@) =~= Seq::<Seq<char>>::empty());
        d
    }

    fn contains(&self, p: &String) -> (b: bool)
        ensures
            b == texts(self.pending@).contains(p@),
    {
        let mut i: usize = 0;
        while i < self.pending.len()
            invariant
                i <= self.pending.len(),
                forall|k: int| 0 <= k < i ==> texts(self.pending@)[k] != p@,
            decreases self.pending.len() - i,
        {
            if self.pending[i].eq(p) {
                proof {
                    assert(texts(self.pending@)[i as int] == p@);
                }
                return true;
            }
            i = i + 1;
        }
        false
    }

    /// Record an event at `now` that touched `paths`.
    pub fn on_event(&mut self, paths: Vec<String>, now: u64)
        requires
            old(self).wf(),
        ensures
            final(self).wf(),
            final(self).pending() == old(self).pending() + texts(paths@).to_set(),
            final(self).last() == now,
    {
        let ghost start = texts(self.pending@);
        let mut i: usize = 0;
        while i < paths.len()
            invariant
                i <= paths.len(),
                texts(self.pending@).no_duplicates(),
                texts(self.pending@).to_set() == start.to_set() + texts(paths@).take(i as int).to_set(),
            decreases paths.len() - i,
        {
            let p = &paths[i];
            let ghost before = texts(self.pending@);
            proof {
                assert(texts(paths@).take(i + 1) =~= texts(paths@).take(i as int).push(p@));
            }
            if !self.contains(p) {
                let q = p.clone();
                self.pending.push(q);
                proof {
                    assert(texts(self.pending@) =~= before.push(p@));
                    before.lemma_push_to_set_commute(p@);
                    texts(paths@).take(i as int).lemma_push_to_set_commute(p@);
                    assert forall|a: int, b: int|
                        0 <= a < b < texts(self.pending@).len() implies texts(self.pending@)[a]
                        != texts(self.pending@)[b] by {
                        if b == before.len() {
                            assert(before[a] == texts(self.pending@)[a]);
                            assert(before.contains(before[a]));
                        }
                    }
                }
            } else {
                proof {
                    texts(paths@).take(i as int).lemma_push_to_set_commute(p@);
                    assert(before.to_set().contains(p@));
                }
            }
            i = i + 1;
        }
        self.last = now;
        proof {
            assert(texts(paths@).take(i as int) =~= texts(paths@));
        }
    }

    /// Hand out the pending paths when some are pending and at least
    /// [`DEBOUNCE_MS`] have passed since the last event; the debouncer is then
    /// empty. Otherwise nothing changes.
    pub fn poll(&mut self, now: u64) -> (r: Option<Vec<String>>)
        requires
            old(self).wf(),
        ensures
            final(self).wf(),
            final(self).last() == old(self).last(),
            due(old(self).pending(), old(self).last(), now) ==> (r matches Some(v) && texts(
                v@,
            ).to_set() == old(self).pending() && texts(v@).no_duplicates() && final(self).pending()
                == Set::<Seq<char>>::empty()),
            !due(old(self).pending(), old(self).last(), now) ==> r is None && final(self).pending()
                == old(self).pending(),
    {
        proof {
            texts(self.pending@).lemma_cardinality_of_set();
            if self.pending.len() == 0 {
                assert(texts(self.pending@) =~= Seq::<Seq<char>>::empty());
                assert(texts(self.pending@).to_set() =~= Set::<Seq<char>>::empty());
            } else {
                assert(texts(self.pending@).to_set().contains(texts(self.pending@)[0]));
            }
        }
        if self.pending.len() > 0 && now >= self.last && now - self.last >= DEBOUNCE_MS {
            let mut out: Vec<String> = Vec::new();
            std::mem::swap(&mut out, &mut self.pending);
            proof {
                assert(texts(self.pending@) =~= Seq::<Seq<char>>::empty());
                assert(texts(self.pending@).to_set() =~= Set::<Seq<char>>::empty());
            }
            Some(out)
        } else {
            None
        }
    }
}

/// A flush is due: something is pending and the quiet period has passed
/// since the last event.
pub open spec fn due(pending: Set<Seq<char>>, last: u64, now: u64) -> bool {
    pending != Set::<Seq<char>>::empty() && now >= last + DEBOUNCE_MS
}

/// No flush comes within the quiet period after an event, and once the
/// period has passed every path of the event is handed out.
pub proof fn law_flush_waits_for_quiet(
    pending: Set<Seq<char>>,
    paths: Seq<Seq<char>>,
    t: u64,
    now: u64,
)
    ensures
        now < t + DEBOUNCE_MS ==> !due(pending + paths.to_set(), t, now),
        now >= t + DEBOUNCE_MS && paths.len() > 0 ==> due(pending + paths.to_set(), t, now),
        forall|p: Seq<char>| paths.contains(p) ==> (pending + paths.to_set()).contains(p),
{
    if paths.len() > 0 {
        assert((pending + paths.to_set()).contains(paths[0]));
    }
}

} // verus!
