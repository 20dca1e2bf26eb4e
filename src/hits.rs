//! Counting recorded hits per short code.

use vstd::prelude::*;
use crate::text::same_text;

verus! {

/// How often `code` occurs among the hits `(code, timestamp)`.
pub open spec fn occurrences(hits: Seq<(String, u64)>, code: Seq<char>) -> nat
    decreases hits.len(),
{
    if hits.len() == 0 {
        0
    } else {
        occurrences(hits.drop_last(), code) + if hits.last().0@ == code { 1nat } else { 0nat }
    }
}

pub proof fn lemma_occurrences_bounded(hits: Seq<(String, u64)>, code: Seq<char>)
    ensures
        occurrences(hits, code) <= hits.len(),
    decreases hits.len(),
{
    if hits.len() > 0 {
        lemma_occurrences_bounded(hits.drop_last(), code);
    }
}

/// Sum of `s`.
pub open spec fn sum_of(s: Seq<u64>) -> int
    decreases s.len(),
{
    if s.len() == 0 {
        0
    } else {
        sum_of(s.drop_last()) + s.last()
    }
}

/// A count per code; each code appears at most once.
pub struct HitCounts {
    codes: Vec<String>,
    counts: Vec<u64>,
}

impl HitCounts {
    pub closed spec fn wf(&self) -> bool {
        &&& self.codes@.len() == self.counts@.len()
        &&& forall|i: int, j: int|
            0 <= i < j < self.codes@.len() ==> self.codes@[i]@ != self.codes@[j]@
    }

    /// Whether `code` has been counted, possibly with a count of zero.
    pub closed spec fn holds(&self, code: Seq<char>) -> bool {
        exists|i: int| 0 <= i < self.codes@.len() && self.codes@[i]@ == code
    }

    /// The count kept for `code`; `0` for a code never counted.
    pub closed spec fn count_of(&self, code: Seq<char>) -> nat {
        if self.holds(code) {
            self.counts@[choose|i: int| 0 <= i < self.codes@.len() && self.codes@[i]@ == code] as nat
        } else {
            0
        }
    }

    /// Number of distinct codes counted.
    pub closed spec fn spec_len(&self) -> nat {
        self.codes@.len()
    }

    proof fn lemma_count_at(&self, i: int)
        requires
            self.wf(),
            0 <= i < self.codes@.len(),
        ensures
            self.count_of(self.codes@[i]@) == self.counts@[i],
    {
        let code = self.codes@[i]@;
        assert(self.holds(code));
        let k = choose|k: int| 0 <= k < self.codes@.len() && self.codes@[k]@ == code;
        assert(k == i);
    }

    /// No code counted yet.
    pub fn new() -> (r: HitCounts)
        ensures
            r.wf(),
            r.spec_len() == 0,
            forall|c: Seq<char>| !r.holds(c) && r.count_of(c) == 0,
    {
        HitCounts { codes: Vec::new(), counts: Vec::new() }
    }

    /// Index of `code`, if it is counted.
    fn find(&self, code: &str) -> (r: Option<usize>)
        requires
            self.wf(),
        ensures
            r is None <==> !self.holds(code@),
            r matches Some(i) ==> i < self.codes@.len() && self.codes@[i as int]@ == code@,
    {
        let mut i: usize = 0;
        while i < self.codes.len()
            invariant
                i <= self.codes@.len(),
                forall|j: int| 0 <= j < i ==> self.codes@[j]@ != code@,
            decreases self.codes@.len() - i,
        {
            if same_text(self.codes[i].as_str(), code) {
                return Some(i);
            }
            i = i + 1;
        }
        None
    }

    /// Adds `n` to the count of `code`.
    pub fn add(&mut self, code: &str, n: u64)
        requires
            old(self).wf(),
            old(self).count_of(code@) + n <= u64::MAX,
        ensures
            final(self).wf(),
            final(self).count_of(code@) == old(self).count_of(code@) + n,
            final(self).holds(code@),
            forall|c: Seq<char>| c != code@ ==> final(self).count_of(c) == old(self).count_of(c)
                && final(self).holds(c) == old(self).holds(c),
            final(self).spec_len() == old(self).spec_len() + if old(self).holds(code@) { 0int } else { 1int },
    {
        match self.find(code) {
            Some(i) => {
                proof {
                    self.lemma_count_at(i as int);
                }
                let ghost before = *self;
                let v = self.counts[i];
                self.counts.set(i, v + n);
                proof {
                    self.lemma_count_at(i as int);
                    assert forall|c: Seq<char>| c != code@ implies self.count_of(c) == before.count_of(c)
                        && self.holds(c) == before.holds(c) by {
                        if before.holds(c) {
                            let k = choose|k: int| 0 <= k < before.codes@.len() && before.codes@[k]@ == c;
                            before.lemma_count_at(k);
                            self.lemma_count_at(k);
                        }
                    }
                }
            }
            None => {
                let ghost before = *self;
                self.codes.push(code.to_string());
                self.counts.push(n);
                proof {
                    let last = self.codes@.len() - 1;
                    assert(self.codes@[last]@ == code@);
                    self.lemma_count_at(last);
                    assert forall|c: Seq<char>| c != code@ implies self.count_of(c) == before.count_of(c)
                        && self.holds(c) == before.holds(c) by {
                        if before.holds(c) {
                            let k = choose|k: int| 0 <= k < before.codes@.len() && before.codes@[k]@ == c;
                            before.lemma_count_at(k);
                            self.lemma_count_at(k);
                            assert(self.codes@[k]@ == c);
                        } else {
                            assert(!self.holds(c));
                        }
                    }
                }
            }
        }
    }

    /// The count of `code`, or `None` if it was never counted.
    pub fn get(&self, code: &str) -> (r: Option<u64>)
        requires
            self.wf(),
        ensures
            r is None <==> !self.holds(code@),
            r matches Some(n) ==> n == self.count_of(code@),
    {
        match self.find(code) {
            Some(i) => {
                proof {
                    self.lemma_count_at(i as int);
                }
                Some(self.counts[i])
            }
            None => None,
        }
    }

    /// Number of distinct codes counted.
    pub fn len(&self) -> (r: usize)
        ensures
            r == self.spec_len(),
    {
        self.codes.len()
    }

    /// The counts, in the order their codes were first seen.
    pub closed spec fn spec_counts(&self) -> Seq<u64> {
        self.counts@
    }

    /// The sum of all counts, or `None` when it does not fit in `u64`.
    pub fn total(&self) -> (r: Option<u64>)
        ensures
            r is None <==> sum_of(self.spec_counts()) > u64::MAX,
            r matches Some(t) ==> t == sum_of(self.spec_counts()),
    {
        let mut t: u64 = 0;
        let mut i: usize = 0;
        while i < self.counts.len()
            invariant
                i <= self.counts@.len(),
                t == sum_of(self.counts@.take(i as int)),
            decreases self.counts@.len() - i,
        {
            assert(self.counts@.take(i + 1).drop_last() =~= self.counts@.take(i as int));
            match t.checked_add(self.counts[i]) {
                Some(u) => t = u,
                None => {
                    proof {
                        lemma_sum_grows(self.counts@, i as int + 1);
                    }
                    return None;
                },
            }
            i = i + 1;
        }
        assert(self.counts@.take(i as int) =~= self.counts@);
        Some(t)
    }

    /// Every code with its count, in the order the codes were first seen.
    pub fn entries(&self) -> (r: Vec<(String, u64)>)
        requires
            self.wf(),
        ensures
            r@.len() == self.spec_len(),
            forall|i: int| 0 <= i < r@.len() ==> self.holds(#[trigger] r@[i].0@)
                && self.count_of(r@[i].0@) == r@[i].1,
            forall|c: Seq<char>| self.holds(c) ==> exists|i: int| 0 <= i < r@.len() && r@[i].0@ == c,
            forall|i: int| 0 <= i < r@.len() ==> #[trigger] r@[i].1 == self.spec_counts()[i],
    {
        let mut r: Vec<(String, u64)> = Vec::new();
        let mut i: usize = 0;
        while i < self.codes.len()
            invariant
                self.wf(),
                i <= self.codes@.len(),
                r@.len() == i,
                forall|k: int| #![trigger r@[k]] 0 <= k < i ==> r@[k].0@ == self.codes@[k]@ && r@[k].1 == self.counts@[k],
            decreases self.codes@.len() - i,
        {
            let code: String = self.codes[i].clone();
            assert(code@ == self.codes@[i as int]@);
            let ghost before = r@;
            let n: u64 = self.counts[i];
            let entry = (code, n);
            assert(entry.0@ == self.codes@[i as int]@);
            r.push(entry);
            assert(r@[i as int] == entry);
            assert forall|k: int| #![trigger r@[k]] 0 <= k < i + 1 implies r@[k].0@ == self.codes@[k]@ && r@[k].1 == self.counts@[k] by {
                if k < i {
                    assert(r@[k] == before[k]);
                }
            }
            i = i + 1;
        }
        proof {
            assert forall|k: int| 0 <= k < r@.len() implies self.holds(#[trigger] r@[k].0@)
                && self.count_of(r@[k].0@) == r@[k].1 by {
                self.lemma_count_at(k);
            }
            assert forall|c: Seq<char>| self.holds(c) implies exists|i: int| 0 <= i < r@.len() && r@[i].0@ == c by {
                let k = choose|k: int| 0 <= k < self.codes@.len() && self.codes@[k]@ == c;
                assert(r@[k].0@ == c);
            }
        }
        r
    }

    /// Whether no code has been counted.
    pub fn is_empty(&self) -> (r: bool)
        ensures
            r == (self.spec_len() == 0),
    {
        self.codes.len() == 0
    }
}

/// Partial sums never shrink.
proof fn lemma_sum_grows(s: Seq<u64>, k: int)
    requires
        0 <= k <= s.len(),
    ensures
        sum_of(s.take(k)) <= sum_of(s),
    decreases s.len(),
{
    if k < s.len() {
        assert(s.drop_last().take(k) =~= s.take(k));
        lemma_sum_grows(s.drop_last(), k);
    } else {
        assert(s.take(k) =~= s);
    }
}

/// Counts the hits of each code; the timestamps are not read.
pub fn aggregate_hits(hits: &[(String, u64)]) -> (r: HitCounts)
    ensures
        r.wf(),
        forall|c: Seq<char>| #[trigger] r.count_of(c) == occurrences(hits@, c),
        forall|c: Seq<char>| #[trigger] r.holds(c) <==> occurrences(hits@, c) > 0,
{
    let mut agg = HitCounts::new();
    let mut i: usize = 0;
    while i < hits.len()
        invariant
            i <= hits@.len(),
            agg.wf(),
            forall|c: Seq<char>| #[trigger] agg.count_of(c) == occurrences(hits@.take(i as int), c),
            forall|c: Seq<char>| #[trigger] agg.holds(c) <==> occurrences(hits@.take(i as int), c) > 0,
        decreases hits@.len() - i,
    {
        let code = &hits[i].0;
        proof {
            lemma_occurrences_bounded(hits@.take(i as int), code@);
            assert(hits@.take(i + 1).drop_last() =~= hits@.take(i as int));
        }
        agg.add(code.as_str(), 1);
        i = i + 1;
    }
    assert(hits@.take(i as int) =~= hits@);
    agg
}

} // verus!
